use mincontainer::clock::{now_iso, stamp};
use mincontainer::config::{parse_memory, ContainerConfig, Resources};
use mincontainer::error::RuntimeError;
use mincontainer::scan::{
    join_path, split_colon, split_lines, split_words, strip_slashes, trim,
};
use mincontainer::stats::{Figures, Spread};
use mincontainer::text::{
    align_left, begins_with, can_cut, cut_bytes, has_char, join, number_text, padded_number,
    parse_u64, signed_text,
};

fn list(items: &[&str]) -> Vec<String> {
    items.iter().map(|s| s.to_string()).collect()
}

#[test]
fn numbers_are_written() {
    assert_eq!(number_text(0), "0");
    assert_eq!(number_text(18446744073709551615), "18446744073709551615");
    assert_eq!(signed_text(-2147483648), "-2147483648");
    assert_eq!(signed_text(42), "42");
    assert_eq!(padded_number(7, 4), "0007");
    assert_eq!(padded_number(12345, 4), "12345");
}

#[test]
fn numbers_are_read_back() {
    for n in [0u64, 1, 9, 10, 255, 4294967296, u64::MAX] {
        assert_eq!(parse_u64(&number_text(n)), Some(n));
        assert_eq!(number_text(n), n.to_string());
    }
    assert_ne!(number_text(11), number_text(1));
}

#[test]
fn what_is_no_number_is_not_read() {
    for s in ["", "+", "-1", " 1", "1 ", "1x", "18446744073709551616", "0x10"] {
        assert_eq!(parse_u64(s), None);
        assert!(s.parse::<u64>().is_err());
    }
    assert_eq!(parse_u64("+7"), Some(7));
    assert_eq!(parse_u64("007"), Some(7));
}

#[test]
fn text_is_cut_between_characters() {
    assert_eq!(cut_bytes("abcdef", 3), "abc");
    assert_eq!(cut_bytes("abc", 5), "abc");
    assert!(can_cut("aé", 3));
    assert!(!can_cut("aé", 2));
    assert_eq!(cut_bytes("aéb", 3), "aé");
}

#[test]
fn ascii_is_cut_anywhere() {
    let s = "0123456789abcdef0123456789abcdef0123";
    for n in 0..40 {
        assert!(can_cut(s, n));
        assert_eq!(cut_bytes(s, n), s[..n.min(36)]);
    }
}

#[test]
fn text_is_aligned_and_joined() {
    assert_eq!(align_left("ab", 5), "ab   ");
    assert_eq!(align_left("abcdef", 5), "abcdef");
    assert_eq!(align_left("é", 3), "é  ");
    assert_eq!(join(&list(&["+memory", "+cpu"])), "+memory +cpu");
    assert_eq!(join(&list(&[])), "");
    assert!(has_char("a\0b", '\0'));
    assert!(!has_char("ab", '\0'));
    assert!(begins_with("usage_usec 5", "usage_usec "));
    assert!(!begins_with("usage", "usage_usec "));
}

#[test]
fn words_and_lines_are_split() {
    assert_eq!(split_words(" cpu  memory\tpids\n"), list(&["cpu", "memory", "pids"]));
    assert_eq!(split_words("\u{2003}a\u{85}b"), list(&["a", "b"]));
    assert_eq!(split_words("  "), list(&[]));
    assert_eq!(split_lines("a\r\nb\n\nc"), list(&["a", "b", "", "c"]));
    assert_eq!(split_lines("a\n"), list(&["a"]));
    assert_eq!(split_lines(""), list(&[]));
    for s in ["a\r", "a\r\r\nb", "\n", "x\n\ny\n"] {
        let expected: Vec<String> = s.lines().map(|l| l.to_string()).collect();
        assert_eq!(split_lines(s), expected);
    }
}

#[test]
fn trimming_leaves_no_blank_at_the_ends() {
    assert_eq!(trim(" 12 34\n"), "12 34");
    assert_eq!(trim("\u{a0}x\u{3000}"), "x");
    assert_eq!(trim(" \t"), "");
}

#[test]
fn exactly_one_colon_makes_a_pair() {
    assert_eq!(split_colon("/a:/b"), Some(("/a".to_string(), "/b".to_string())));
    assert_eq!(split_colon(":"), Some((String::new(), String::new())));
    assert_eq!(split_colon("/a"), None);
    assert_eq!(split_colon("/a:/b:ro"), None);
    assert_eq!(split_colon(""), None);
}

#[test]
fn no_slash_is_left_in_front() {
    assert_eq!(strip_slashes("///mnt/x/"), "mnt/x/");
    assert_eq!(strip_slashes("mnt"), "mnt");
    assert_eq!(strip_slashes("//"), "");
}

#[test]
fn paths_are_joined_as_the_file_system_reads_them() {
    for (base, rel) in
        [("/a", "b"), ("/a/", "b"), ("", "b"), ("/a", "/b"), ("/a", ""), ("/", "x"), ("/a", "b/c")]
    {
        let expected = std::path::Path::new(base).join(rel);
        assert_eq!(join_path(base, rel), expected.to_str().unwrap());
    }
}

#[test]
fn time_stamps_have_the_shape_of_the_first_of_january() {
    assert_eq!(stamp(0), "1970-01-01T00:00:00Z");
    assert_eq!(stamp(3661), "1970-01-01T01:01:01Z");
    assert_eq!(stamp(365 * 24 * 3600), "1971-01-01T00:00:00Z");
    assert_eq!(stamp(1_700_000_000), "2023-01-01T22:13:20Z");
    assert_eq!(stamp(253_402_300_800).len(), "10005-01-01T00:00:00Z".len());
}

#[test]
fn now_is_after_the_year_2020() {
    let now = now_iso();
    assert_eq!(now.len(), 20);
    assert!(now.as_str() > "2020-01-01T00:00:00Z");
    assert!(now.as_str() < "9999-01-01T00:00:00Z");
    assert_eq!(&now[4..11], "-01-01T");
    assert_eq!(&now[19..], "Z");
}

#[test]
fn the_same_moment_has_the_same_stamp() {
    let before = std::time::SystemTime::now()
        .duration_since(std::time::UNIX_EPOCH)
        .unwrap()
        .as_secs();
    let now = now_iso();
    let after = std::time::SystemTime::now()
        .duration_since(std::time::UNIX_EPOCH)
        .unwrap()
        .as_secs();
    assert!((before..=after).any(|s| stamp(s) == now));
}

#[test]
fn a_configuration_has_its_defaults() {
    let cfg = ContainerConfig::new("/rootfs".to_string(), list(&["/bin/sh", "-c", "true"]));
    assert_eq!(cfg.rootfs, "/rootfs");
    assert_eq!(cfg.command, list(&["/bin/sh", "-c", "true"]));
    assert_eq!(
        cfg.env,
        list(&[
            "PATH=/usr/local/sbin:/usr/local/bin:/usr/sbin:/usr/bin:/sbin:/bin",
            "HOME=/root",
            "TERM=xterm",
        ])
    );
    assert!(cfg.volumes.is_empty());
    assert_eq!(cfg.resources.memory_max, 128 * 1024 * 1024);
    assert_eq!(cfg.resources.cpu_quota, 0);
    assert_eq!(cfg.resources.cpu_period, 100_000);
    assert_eq!(cfg.resources.pids_max, 128);
    assert!(!cfg.network);
    assert!(cfg.seccomp);
    assert!(cfg.drop_caps);
    assert_eq!(cfg.hostname, format!("mc-{}", &cfg.id[..12]));
    assert_eq!(cfg.short_id(), &cfg.id[..12]);
    assert_eq!(Resources::default(), cfg.resources);
}

#[test]
fn ids_are_random() {
    let a = ContainerConfig::new("/".to_string(), list(&["x"])).id;
    let b = ContainerConfig::new("/".to_string(), list(&["x"])).id;
    assert_ne!(a, b);
    let parsed = uuid::Uuid::parse_str(&a).unwrap();
    assert_eq!(parsed.get_version_num(), 4);
    assert_eq!(parsed.to_string(), a);
    assert_eq!(a.len(), 36);
}

#[test]
fn a_short_id_is_the_first_twelve_characters() {
    let mut cfg = ContainerConfig::with_id("abcdefghijkl".to_string(), "/".to_string(), list(&[]));
    assert_eq!(cfg.short_id(), "abcdefghijkl");
    cfg.id = "ééééééééééééé".to_string();
    assert_eq!(cfg.short_id(), "éééééééééééé");
    cfg.id = "ééééééé".to_string();
    assert_eq!(cfg.short_id(), "ééééééé");
}

#[test]
fn memory_is_given_in_bytes_or_mebibytes() {
    assert_eq!(parse_memory("64M"), Some(67108864));
    assert_eq!(parse_memory("134217728"), Some(134217728));
    assert_eq!(parse_memory("0"), Some(0));
    assert_eq!(parse_memory("0M"), Some(0));
    assert_eq!(parse_memory("17592186044415M"), Some(18446744073708503040));
    assert_eq!(parse_memory("17592186044416M"), None);
    for s in ["", "M", "64m", "64K", "64MB", "-1", "1.5M", "64 M"] {
        assert_eq!(parse_memory(s), None);
    }
}

#[test]
fn errors_have_their_messages() {
    let e = |s: &str| s.to_string();
    assert_eq!(RuntimeError::Io(e("x")).message(), "io error: x");
    assert_eq!(
        RuntimeError::Syscall("fork", e("EAGAIN: Try again")).message(),
        "syscall fork failed: EAGAIN: Try again"
    );
    assert_eq!(RuntimeError::Cgroup(e("x")).message(), "cgroup error: x");
    assert_eq!(RuntimeError::Filesystem(e("x")).message(), "filesystem error: x");
    assert_eq!(RuntimeError::Network(e("x")).message(), "network error: x");
    assert_eq!(RuntimeError::Seccomp(e("x")).message(), "seccomp error: x");
    assert_eq!(RuntimeError::Config(e("x")).message(), "config error: x");
    assert_eq!(RuntimeError::Json(e("x")).message(), "json error: x");
}

#[test]
fn a_spread_is_in_order_and_complete() {
    let s = Spread::of(&vec![5, 1, 4, 1, 3]);
    assert_eq!(s.sorted, vec![1, 1, 3, 4, 5]);
    assert_eq!(
        s.figures(),
        Some(Figures { count: 5, min: 1, p50: 3, p99: 5, max: 5 })
    );
}

#[test]
fn figures_of_a_hundred_values() {
    let values: Vec<u64> = (0..100).rev().collect();
    let f = Spread::of(&values).figures().unwrap();
    assert_eq!(f, Figures { count: 100, min: 0, p50: 50, p99: 99, max: 99 });
    for n in 1u64..300 {
        let values: Vec<u64> = (0..n).collect();
        let f = Spread::of(&values).figures().unwrap();
        assert_eq!(f.p99, ((n as f64 * 0.99) as u64).min(n - 1));
        assert!(f.min <= f.p50 && f.p50 <= f.p99 && f.p99 <= f.max);
    }
}

#[test]
fn no_values_have_no_figures() {
    assert_eq!(Spread::of(&vec![]).figures(), None);
    assert_eq!(
        Spread::of(&vec![7]).figures(),
        Some(Figures { count: 1, min: 7, p50: 7, p99: 7, max: 7 })
    );
}
