use mincontainer::seccomp::{
    apply, blocked_count, blocked_syscalls, compile_profile, SyscallNumbers,
};

fn machine() -> SyscallNumbers {
    SyscallNumbers {
        ptrace: libc::SYS_ptrace as i64,
        keyctl: libc::SYS_keyctl as i64,
        add_key: libc::SYS_add_key as i64,
        request_key: libc::SYS_request_key as i64,
        mount: libc::SYS_mount as i64,
        umount2: libc::SYS_umount2 as i64,
        pivot_root: libc::SYS_pivot_root as i64,
        reboot: libc::SYS_reboot as i64,
        swapon: libc::SYS_swapon as i64,
        swapoff: libc::SYS_swapoff as i64,
        init_module: libc::SYS_init_module as i64,
        finit_module: libc::SYS_finit_module as i64,
        delete_module: libc::SYS_delete_module as i64,
        kexec_load: libc::SYS_kexec_load as i64,
        perf_event_open: libc::SYS_perf_event_open as i64,
    }
}

/// What a compiled filter does with a system call of an architecture.
fn judged(program: &[mincontainer::seccomp::BpfInstruction], arch: u32, nr: u32) -> u32 {
    let mut acc: u32 = 0;
    let mut at: usize = 0;
    loop {
        let i = program[at];
        at += 1;
        match i.code {
            0x20 => acc = if i.k == 0 { nr } else { arch },
            0x15 => at += if acc == i.k { i.jt } else { i.jf } as usize,
            0x05 => at += i.k as usize,
            0x06 => return i.k,
            other => panic!("unexpected instruction {other:#x}"),
        }
    }
}

const X86_64: u32 = 0xc000_003e;
const ALLOW: u32 = 0x7fff_0000;
const DENY_EPERM: u32 = 0x0005_0001;

#[test]
fn fifteen_system_calls_are_blocked() {
    assert_eq!(blocked_count(), 15);
    let list = blocked_syscalls(&machine());
    assert_eq!(list.len(), 15);
    let mut sorted = list.clone();
    sorted.sort();
    sorted.dedup();
    assert_eq!(sorted.len(), 15);
}

#[test]
fn the_filter_denies_exactly_the_blocked_calls() {
    let program = match apply("x86_64") {
        Ok(p) => p,
        Err(e) => panic!("{}", e.message()),
    };
    assert_eq!(program.len(), 5 + 5 * 15);
    let blocked = blocked_syscalls(&machine());
    for nr in 0u32..600 {
        let expected = if blocked.contains(&(nr as i64)) { DENY_EPERM } else { ALLOW };
        assert_eq!(judged(&program, X86_64, nr), expected);
    }
}

#[test]
fn what_the_setup_needs_is_denied_afterwards() {
    let program = apply("x86_64").unwrap();
    for nr in [libc::SYS_mount, libc::SYS_umount2, libc::SYS_pivot_root] {
        assert_eq!(judged(&program, X86_64, nr as u32), DENY_EPERM);
    }
    assert_eq!(judged(&program, X86_64, libc::SYS_execve as u32), ALLOW);
}

#[test]
fn architectures_are_known_by_name() {
    for name in ["x86_64", "aarch64", "riscv64", "X86_64"] {
        assert!(compile_profile(&machine(), name).is_ok());
    }
    let e = compile_profile(&machine(), "sparc").unwrap_err();
    assert_eq!(
        e.message(),
        "seccomp error: unsupported arch: InvalidTargetArch(\"sparc\")".to_string()
    );
    assert_ne!(
        compile_profile(&machine(), "x86_64").unwrap(),
        compile_profile(&machine(), "aarch64").unwrap()
    );
}

#[test]
fn a_foreign_process_is_killed() {
    let program = apply("x86_64").unwrap();
    for arch in [0xc000_00b7u32, 0x4000_0003, 0] {
        assert_eq!(judged(&program, arch, 1), 0x8000_0000);
    }
    let arm = apply("aarch64").unwrap();
    assert_eq!(judged(&arm, 0xc000_00b7, libc::SYS_mount as u32), DENY_EPERM);
    assert_eq!(judged(&arm, X86_64, 1), 0x8000_0000);
    let riscv = apply("riscv64").unwrap();
    assert_eq!(judged(&riscv, 0xc000_00f3, 1), ALLOW);
}
