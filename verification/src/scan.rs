//! Cutting text into words, lines and fields.

use crate::text::{chars_of, slice};
use vstd::prelude::*;

verus! {

/// Whether `c` has the Unicode property `White_Space`.
pub open spec fn is_blank(c: char) -> bool {
    let n = c as u32;
    ||| 0x09 <= n <= 0x0d
    ||| n == 0x20
    ||| n == 0x85
    ||| n == 0xa0
    ||| n == 0x1680
    ||| 0x2000 <= n <= 0x200a
    ||| n == 0x2028
    ||| n == 0x2029
    ||| n == 0x202f
    ||| n == 0x205f
    ||| n == 0x3000
}

fn blank(c: char) -> (r: bool)
    ensures
        r == is_blank(c),
{
    let n: u32 = c as u32;
    (0x09 <= n && n <= 0x0d) || n == 0x20 || n == 0x85 || n == 0xa0 || n == 0x1680 || (0x2000 <= n
        && n <= 0x200a) || n == 0x2028 || n == 0x2029 || n == 0x202f || n == 0x205f || n == 0x3000
}

/// `s` without the white space at its front.
pub open spec fn front_trimmed(s: Seq<char>) -> Seq<char>
    decreases s.len(),
{
    if s.len() > 0 && is_blank(s[0]) {
        front_trimmed(s.drop_first())
    } else {
        s
    }
}

/// `s` without the white space at its end.
pub open spec fn back_trimmed(s: Seq<char>) -> Seq<char>
    decreases s.len(),
{
    if s.len() > 0 && is_blank(s.last()) {
        back_trimmed(s.drop_last())
    } else {
        s
    }
}

/// `s` without the white space at both ends.
pub open spec fn trimmed(s: Seq<char>) -> Seq<char> {
    back_trimmed(front_trimmed(s))
}

/// Where the first character that is not white space stands in `v`, from `from` on.
fn skip_blanks(v: &Vec<char>, from: usize) -> (i: usize)
    requires
        from <= v@.len(),
    ensures
        from <= i <= v@.len(),
        front_trimmed(v@.skip(from as int)) == v@.skip(i as int),
        i < v@.len() ==> !is_blank(v@[i as int]),
{
    let mut i: usize = from;
    while i < v.len() && blank(v[i])
        invariant
            from <= i <= v@.len(),
            front_trimmed(v@.skip(from as int)) == front_trimmed(v@.skip(i as int)),
        ensures
            from <= i <= v@.len(),
            front_trimmed(v@.skip(from as int)) == front_trimmed(v@.skip(i as int)),
            i < v@.len() ==> !is_blank(v@[i as int]),
        decreases v.len() - i,
    {
        assert(v@.skip(i as int).drop_first() =~= v@.skip(i + 1));
        i = i + 1;
    }
    i
}

/// `s` without the white space at both ends.
pub fn trim(s: &str) -> (r: String)
    ensures
        r@ == trimmed(s@),
{
    let v: Vec<char> = chars_of(s);
    let from: usize = skip_blanks(&v, 0);
    assert(s@.skip(0) =~= s@);
    let mut to: usize = v.len();
    assert(s@.subrange(from as int, to as int) =~= s@.skip(from as int));
    while to > from && blank(v[to - 1])
        invariant
            v@ == s@,
            from <= to <= v@.len(),
            trimmed(s@) == back_trimmed(s@.subrange(from as int, to as int)),
        ensures
            from <= to <= v@.len(),
            trimmed(s@) == back_trimmed(s@.subrange(from as int, to as int)),
            to > from ==> !is_blank(v@[to - 1]),
        decreases to - from,
    {
        assert(s@.subrange(from as int, to as int).drop_last() =~= s@.subrange(
            from as int,
            to - 1,
        ));
        to = to - 1;
    }
    slice(s, from, to)
}

/// How many characters stand at the front of `s` before the first `stop`.
pub open spec fn run_length(s: Seq<char>, stop: spec_fn(char) -> bool) -> nat
    decreases s.len(),
{
    if s.len() == 0 || stop(s[0]) {
        0
    } else {
        1 + run_length(s.drop_first(), stop)
    }
}

proof fn lemma_run_length(s: Seq<char>, stop: spec_fn(char) -> bool, n: int)
    requires
        0 <= n <= s.len(),
        forall|i: int| 0 <= i < n ==> !stop(#[trigger] s[i]),
        n < s.len() ==> stop(s[n]),
    ensures
        run_length(s, stop) == n,
    decreases s.len(),
{
    if n > 0 {
        lemma_run_length(s.drop_first(), stop, n - 1);
    }
}

proof fn lemma_run_length_bound(s: Seq<char>, stop: spec_fn(char) -> bool)
    ensures
        run_length(s, stop) <= s.len(),
        s.len() > 0 && !stop(s[0]) ==> run_length(s, stop) > 0,
    decreases s.len(),
{
    if s.len() > 0 && !stop(s[0]) {
        lemma_run_length_bound(s.drop_first(), stop);
    }
}

/// The words of `s`: its longest runs of characters that are not white space.
pub open spec fn words(s: Seq<char>) -> Seq<Seq<char>>
    decreases s.len(),
    via words_decreases
{
    let t = front_trimmed(s);
    if t.len() == 0 {
        Seq::empty()
    } else {
        let n = run_length(t, |c: char| is_blank(c)) as int;
        seq![t.take(n)] + words(t.skip(n))
    }
}

proof fn lemma_front_trimmed_shorter(s: Seq<char>)
    ensures
        front_trimmed(s).len() <= s.len(),
        front_trimmed(s).len() > 0 ==> !is_blank(front_trimmed(s)[0]),
    decreases s.len(),
{
    if s.len() > 0 && is_blank(s[0]) {
        lemma_front_trimmed_shorter(s.drop_first());
    }
}

#[via_fn]
proof fn words_decreases(s: Seq<char>) {
    lemma_front_trimmed_shorter(s);
    lemma_run_length_bound(front_trimmed(s), |c: char| is_blank(c));
}

/// The words of `s`: its longest runs of characters that are not white space.
pub fn split_words(s: &str) -> (r: Vec<String>)
    ensures
        crate::text::views(r@) == words(s@),
{
    let v: Vec<char> = chars_of(s);
    let mut r: Vec<String> = Vec::new();
    let mut i: usize = 0;
    assert(s@.skip(0) =~= s@);
    assert(crate::text::views(r@) + words(s@) =~= words(s@));
    loop
        invariant
            v@ == s@,
            i <= v@.len(),
            crate::text::views(r@) + words(s@.skip(i as int)) == words(s@),
        ensures
            crate::text::views(r@) == words(s@),
        decreases v.len() - i,
    {
        let from: usize = skip_blanks(&v, i);
        let ghost t = s@.skip(from as int);
        if from >= v.len() {
            assert(words(s@.skip(i as int)) =~= Seq::<Seq<char>>::empty());
            assert(crate::text::views(r@) =~= words(s@));
            break;
        }
        let mut to: usize = from;
        while to < v.len() && !blank(v[to])
            invariant
                v@ == s@,
                from <= to <= v@.len(),
                forall|j: int| from <= j < to ==> !is_blank(#[trigger] v@[j]),
            ensures
                from <= to <= v@.len(),
                forall|j: int| from <= j < to ==> !is_blank(#[trigger] v@[j]),
                to < v@.len() ==> is_blank(v@[to as int]),
            decreases v.len() - to,
        {
            to = to + 1;
        }
        let ghost before = crate::text::views(r@);
        proof {
            let stop = |c: char| is_blank(c);
            assert forall|j: int| 0 <= j < to - from implies !stop(#[trigger] t[j]) by {
                assert(!is_blank(v@[from + j]));
            }
            lemma_run_length(t, stop, to - from);
            assert(t.take(to - from) =~= s@.subrange(from as int, to as int));
            assert(t.skip(to - from) =~= s@.skip(to as int));
            assert(words(s@.skip(i as int)) == seq![t.take(to - from)] + words(t.skip(to - from)));
            assert(!is_blank(v@[from as int]));
        }
        r.push(slice(s, from, to));
        proof {
            assert(crate::text::views(r@) =~= before.push(s@.subrange(from as int, to as int)));
            assert(crate::text::views(r@) + words(s@.skip(to as int)) =~= before + words(
                s@.skip(i as int),
            ));
        }
        i = to;
    }
    r
}

/// Whether `c` ends a line.
pub open spec fn ends_line(c: char) -> bool {
    c == '\n'
}

/// `s` without one carriage return at its end.
pub open spec fn without_return(s: Seq<char>) -> Seq<char> {
    if s.len() > 0 && s.last() == '\r' {
        s.drop_last()
    } else {
        s
    }
}

/// The lines of `s`, without their line ends: `\n`, or `\r\n`.
///
/// The last line needs no line end.
pub open spec fn lines(s: Seq<char>) -> Seq<Seq<char>>
    decreases s.len(),
    via lines_decreases
{
    if s.len() == 0 {
        Seq::empty()
    } else {
        let n = run_length(s, |c: char| ends_line(c)) as int;
        if n >= s.len() {
            seq![s]
        } else {
            seq![without_return(s.take(n))] + lines(s.skip(n + 1))
        }
    }
}

#[via_fn]
proof fn lines_decreases(s: Seq<char>) {
    lemma_run_length_bound(s, |c: char| ends_line(c));
}

/// The lines of `s`, without their line ends: `\n`, or `\r\n`.
pub fn split_lines(s: &str) -> (r: Vec<String>)
    ensures
        crate::text::views(r@) == lines(s@),
{
    let v: Vec<char> = chars_of(s);
    let mut r: Vec<String> = Vec::new();
    let mut i: usize = 0;
    assert(s@.skip(0) =~= s@);
    assert(crate::text::views(r@) + lines(s@) =~= lines(s@));
    while i < v.len()
        invariant
            v@ == s@,
            i <= v@.len(),
            crate::text::views(r@) + lines(s@.skip(i as int)) == lines(s@),
        decreases v.len() - i,
    {
        let ghost t = s@.skip(i as int);
        let mut to: usize = i;
        while to < v.len() && v[to] != '\n'
            invariant
                v@ == s@,
                i <= to <= v@.len(),
                forall|j: int| i <= j < to ==> v@[j] != '\n',
            ensures
                i <= to <= v@.len(),
                forall|j: int| i <= j < to ==> v@[j] != '\n',
                to < v@.len() ==> v@[to as int] == '\n',
            decreases v.len() - to,
        {
            to = to + 1;
        }
        let ghost before = crate::text::views(r@);
        proof {
            let stop = |c: char| ends_line(c);
            assert forall|j: int| 0 <= j < to - i implies !stop(#[trigger] t[j]) by {
                assert(v@[i + j] != '\n');
            }
            lemma_run_length(t, stop, to - i);
        }
        if to >= v.len() {
            r.push(slice(s, i, to));
            proof {
                assert(s@.subrange(i as int, to as int) =~= t);
                assert(lines(s@.skip(to as int)) =~= Seq::<Seq<char>>::empty());
                assert(crate::text::views(r@) + lines(s@.skip(to as int)) =~= before + lines(t));
            }
            i = to;
        } else {
            let mut end: usize = to;
            if to > i && v[to - 1] == '\r' {
                end = to - 1;
            }
            r.push(slice(s, i, end));
            proof {
                assert(s@.subrange(i as int, end as int) =~= without_return(t.take(to - i)));
                assert(t.skip(to - i + 1) =~= s@.skip(to + 1));
                assert(crate::text::views(r@) + lines(s@.skip(to + 1)) =~= before + lines(t));
            }
            i = to + 1;
        }
    }
    assert(lines(s@.skip(i as int)) =~= Seq::<Seq<char>>::empty());
    assert(crate::text::views(r@) =~= crate::text::views(r@) + lines(s@.skip(i as int)));
    r
}

/// Whether position `i` holds the one and only colon of `s`.
pub open spec fn only_colon(s: Seq<char>, i: int) -> bool {
    &&& 0 <= i < s.len()
    &&& s[i] == ':'
    &&& forall|j: int| 0 <= j < s.len() && j != i ==> s[j] != ':'
}

/// What stands before and behind the colon of `s`, where it holds exactly one.
pub open spec fn colon_pair(s: Seq<char>) -> Option<(Seq<char>, Seq<char>)> {
    if exists|i: int| only_colon(s, i) {
        let i = choose|i: int| only_colon(s, i);
        Some((s.take(i), s.skip(i + 1)))
    } else {
        None
    }
}

/// Whether `s` is `a` and `b` with a colon between them, and no other colon.
pub open spec fn parts_at_colon(s: Seq<char>, a: Seq<char>, b: Seq<char>) -> bool {
    s == a + seq![':'] + b && !a.contains(':') && !b.contains(':')
}

/// A text is parted at its colon exactly where it holds one and no more, and the parts
/// make it up again.
pub proof fn law_one_colon(s: Seq<char>)
    ensures
        match colon_pair(s) {
            Some(pair) => parts_at_colon(s, pair.0, pair.1),
            None => forall|a: Seq<char>, b: Seq<char>| !#[trigger] parts_at_colon(s, a, b),
        },
{
    if exists|i: int| only_colon(s, i) {
        let i = choose|i: int| only_colon(s, i);
        let (a, b) = (s.take(i), s.skip(i + 1));
        assert(s =~= a + seq![':'] + b);
        assert forall|j: int| 0 <= j < a.len() implies a[j] != ':' by {
            assert(a[j] == s[j]);
        }
        assert forall|j: int| 0 <= j < b.len() implies b[j] != ':' by {
            assert(b[j] == s[i + 1 + j]);
        }
    } else {
        assert forall|a: Seq<char>, b: Seq<char>| !#[trigger] parts_at_colon(s, a, b) by {
            if parts_at_colon(s, a, b) {
                let i = a.len() as int;
                assert forall|j: int| 0 <= j < s.len() && j != i implies s[j] != ':' by {
                    if j < i {
                        assert(s[j] == a[j]);
                    } else {
                        assert(s[j] == b[j - i - 1]);
                    }
                }
                assert(only_colon(s, i));
            }
        }
    }
}

/// What stands before and behind the colon of `s`, where it holds exactly one.
pub fn split_colon(s: &str) -> (r: Option<(String, String)>)
    ensures
        match r {
            Some(pair) => colon_pair(s@) == Some((pair.0@, pair.1@)),
            None => colon_pair(s@) is None,
        },
{
    let v: Vec<char> = chars_of(s);
    let mut i: usize = 0;
    while i < v.len() && v[i] != ':'
        invariant
            v@ == s@,
            i <= v@.len(),
            forall|j: int| 0 <= j < i ==> s@[j] != ':',
        ensures
            i <= v@.len(),
            forall|j: int| 0 <= j < i ==> s@[j] != ':',
            i < v@.len() ==> s@[i as int] == ':',
        decreases v.len() - i,
    {
        i = i + 1;
    }
    if i >= v.len() {
        return None;
    }
    let mut k: usize = i + 1;
    while k < v.len()
        invariant
            v@ == s@,
            i < k <= v@.len(),
            s@[i as int] == ':',
            forall|j: int| i < j < k ==> s@[j] != ':',
        decreases v.len() - k,
    {
        if v[k] == ':' {
            assert forall|j: int| !only_colon(s@, j) by {
                if only_colon(s@, j) {
                    assert(s@[k as int] == ':');
                }
            }
            return None;
        }
        k = k + 1;
    }
    proof {
        assert(only_colon(s@, i as int));
        let c = choose|j: int| only_colon(s@, j);
        assert(c == i);
        assert(s@.take(c) =~= s@.subrange(0, i as int));
        assert(s@.skip(c + 1) =~= s@.subrange(i + 1, s@.len() as int));
    }
    Some((slice(s, 0, i), slice(s, i + 1, v.len())))
}

/// `s` without the slashes at its front.
pub open spec fn without_slashes(s: Seq<char>) -> Seq<char>
    decreases s.len(),
{
    if s.len() > 0 && s[0] == '/' {
        without_slashes(s.drop_first())
    } else {
        s
    }
}

/// `s` without the slashes at its front.
pub fn strip_slashes(s: &str) -> (r: String)
    ensures
        r@ == without_slashes(s@),
{
    let v: Vec<char> = chars_of(s);
    let mut i: usize = 0;
    assert(s@.skip(0) =~= s@);
    while i < v.len() && v[i] == '/'
        invariant
            v@ == s@,
            i <= v@.len(),
            without_slashes(s@) == without_slashes(s@.skip(i as int)),
        ensures
            i <= v@.len(),
            without_slashes(s@) == without_slashes(s@.skip(i as int)),
            i < v@.len() ==> s@[i as int] != '/',
        decreases v.len() - i,
    {
        assert(s@.skip(i as int).drop_first() =~= s@.skip(i + 1));
        i = i + 1;
    }
    assert(s@.skip(i as int) =~= s@.subrange(i as int, s@.len() as int));
    slice(s, i, v.len())
}

/// The path of `rel` seen from the directory `base`.
///
/// An absolute `rel` stands alone. Otherwise it is appended to `base`, behind a
/// slash where `base` is not empty and does not end in one.
pub open spec fn path_joined(base: Seq<char>, rel: Seq<char>) -> Seq<char> {
    if rel.len() > 0 && rel[0] == '/' {
        rel
    } else if base.len() == 0 || base.last() == '/' {
        base + rel
    } else {
        base + "/"@ + rel
    }
}

/// The path of `rel` seen from the directory `base`.
pub fn join_path(base: &str, rel: &str) -> (r: String)
    ensures
        r@ == path_joined(base@, rel@),
{
    let r: Vec<char> = chars_of(rel);
    if r.len() > 0 && r[0] == '/' {
        return rel.to_owned();
    }
    let b: Vec<char> = chars_of(base);
    if b.len() == 0 || b[b.len() - 1] == '/' {
        crate::text::cat(base, rel)
    } else {
        crate::text::cat3(base, "/", rel)
    }
}

/// What is left when the slashes at the front are gone has none at its front.
pub proof fn law_no_slash_left(s: Seq<char>)
    ensures
        without_slashes(s).len() > 0 ==> without_slashes(s)[0] != '/',
    decreases s.len(),
{
    if s.len() > 0 && s[0] == '/' {
        law_no_slash_left(s.drop_first());
    }
}

/// Trimming leaves no white space at either end.
pub proof fn law_trimmed_ends(s: Seq<char>)
    ensures
        trimmed(s).len() > 0 ==> !is_blank(trimmed(s)[0]) && !is_blank(trimmed(s).last()),
{
    lemma_front_trimmed_shorter(s);
    lemma_back_trimmed(front_trimmed(s));
}

proof fn lemma_back_trimmed(s: Seq<char>)
    ensures
        back_trimmed(s).is_prefix_of(s),
        back_trimmed(s).len() > 0 ==> !is_blank(back_trimmed(s).last()),
    decreases s.len(),
{
    if s.len() > 0 && is_blank(s.last()) {
        lemma_back_trimmed(s.drop_last());
    }
}

/// White space is what Unicode calls so: the blank, the tabs, the line ends, the form feed
/// and the blanks of other scripts, and no other character.
pub proof fn law_blanks(c: char)
    ensures
        is_blank(c) <==> c == ' ' || c == '\t' || c == '\n' || c == '\u{b}' || c == '\u{c}' || c
            == '\r' || c == '\u{85}' || c == '\u{a0}' || c == '\u{1680}' || '\u{2000}' <= c
            <= '\u{200a}' || c == '\u{2028}' || c == '\u{2029}' || c == '\u{202f}' || c
            == '\u{205f}' || c == '\u{3000}',
{
}

/// Trimming takes white space away at both ends, and nothing else.
pub proof fn law_trimmed(s: Seq<char>) -> (ends: (Seq<char>, Seq<char>))
    ensures
        s == ends.0 + trimmed(s) + ends.1,
        forall|i: int| 0 <= i < ends.0.len() ==> is_blank(#[trigger] ends.0[i]),
        forall|i: int| 0 <= i < ends.1.len() ==> is_blank(#[trigger] ends.1[i]),
{
    let front = lemma_front(s);
    let t = front_trimmed(s);
    let back = lemma_back(t);
    assert(s =~= front + trimmed(s) + back);
    (front, back)
}

proof fn lemma_front(s: Seq<char>) -> (front: Seq<char>)
    ensures
        s == front + front_trimmed(s),
        forall|i: int| 0 <= i < front.len() ==> is_blank(#[trigger] front[i]),
    decreases s.len(),
{
    if s.len() > 0 && is_blank(s[0]) {
        let less = lemma_front(s.drop_first());
        let front = seq![s[0]] + less;
        let t = front_trimmed(s);
        assert(s =~= seq![s[0]] + s.drop_first());
        assert(s.drop_first() == less + t);
        assert(seq![s[0]] + (less + t) =~= front + t);
        assert forall|i: int| 0 <= i < front.len() implies is_blank(#[trigger] front[i]) by {
            if i > 0 {
                assert(front[i] == less[i - 1]);
            }
        }
        front
    } else {
        assert(s =~= Seq::empty() + s);
        Seq::empty()
    }
}

proof fn lemma_back(s: Seq<char>) -> (back: Seq<char>)
    ensures
        s == back_trimmed(s) + back,
        forall|i: int| 0 <= i < back.len() ==> is_blank(#[trigger] back[i]),
    decreases s.len(),
{
    if s.len() > 0 && is_blank(s.last()) {
        let less = lemma_back(s.drop_last());
        let back = less.push(s.last());
        let t = back_trimmed(s);
        assert(s =~= s.drop_last().push(s.last()));
        assert(s.drop_last() == t + less);
        assert((t + less).push(s.last()) =~= t + back);
        back
    } else {
        assert(s =~= s + Seq::<char>::empty());
        Seq::empty()
    }
}

/// How a text is parted into words: white space before a word is passed over, and a word
/// goes up to the next white space, or to the end.
pub proof fn law_words(word: Seq<char>, c: char, rest: Seq<char>)
    requires
        is_blank(c),
        word.len() > 0,
        forall|i: int| 0 <= i < word.len() ==> !is_blank(#[trigger] word[i]),
    ensures
        words(Seq::empty()) == Seq::<Seq<char>>::empty(),
        words(seq![c] + rest) == words(rest),
        words(word) == seq![word],
        words(word + seq![c] + rest) == seq![word] + words(rest),
{
    let stop = |c: char| is_blank(c);
    let n = word.len() as int;
    reveal_with_fuel(words, 2);
    assert((seq![c] + rest).drop_first() =~= rest);
    assert(front_trimmed(seq![c] + rest) == front_trimmed(rest));
    let t = front_trimmed(word);
    assert(t == word);
    lemma_run_length(word, stop, n);
    assert(word.take(n) =~= word);
    assert(word.skip(n) =~= Seq::<char>::empty());
    assert(words(word.skip(n)) =~= Seq::<Seq<char>>::empty());
    assert(words(word) =~= seq![word]);
    let all = word + seq![c] + rest;
    assert(!is_blank(all[0])) by {
        assert(all[0] == word[0]);
    }
    assert(front_trimmed(all) == all);
    assert forall|i: int| 0 <= i < n implies !stop(#[trigger] all[i]) by {
        assert(all[i] == word[i]);
    }
    assert(all[n] == c);
    lemma_run_length(all, stop, n);
    assert(all.take(n) =~= word);
    assert(all.skip(n) =~= seq![c] + rest);
    assert(words(all) == seq![word] + words(seq![c] + rest));
}

/// How a text is parted into lines: a line goes up to the next line feed, and a carriage
/// return before that is not part of it; the last line may end without one.
pub proof fn law_lines(line: Seq<char>, rest: Seq<char>)
    requires
        forall|i: int| 0 <= i < line.len() ==> #[trigger] line[i] != '\n',
    ensures
        lines(Seq::empty()) == Seq::<Seq<char>>::empty(),
        line.len() > 0 ==> lines(line) == seq![line],
        lines(line + seq!['\n'] + rest) == seq![
            if line.len() > 0 && line.last() == '\r' {
                line.drop_last()
            } else {
                line
            },
        ] + lines(rest),
{
    let stop = |c: char| ends_line(c);
    let n = line.len() as int;
    reveal_with_fuel(lines, 2);
    if n > 0 {
        lemma_run_length(line, stop, n);
    }
    let all = line + seq!['\n'] + rest;
    assert forall|i: int| 0 <= i < n implies !stop(#[trigger] all[i]) by {
        assert(all[i] == line[i]);
    }
    assert(all[n] == '\n');
    lemma_run_length(all, stop, n);
    assert(all.take(n) =~= line);
    assert(all.skip(n + 1) =~= rest);
}

/// Only slashes are taken away at the front of a path.
pub proof fn law_without_slashes(s: Seq<char>)
    ensures
        without_slashes(s).is_suffix_of(s),
        forall|i: int| 0 <= i < s.len() - without_slashes(s).len() ==> #[trigger] s[i] == '/',
    decreases s.len(),
{
    if s.len() > 0 && s[0] == '/' {
        let rest = s.drop_first();
        law_without_slashes(rest);
        let t = without_slashes(rest);
        assert(rest.subrange(rest.len() - t.len(), rest.len() as int) == t);
        assert(s.subrange(s.len() - t.len(), s.len() as int) =~= t);
        assert forall|i: int| 0 <= i < s.len() - t.len() implies #[trigger] s[i] == '/' by {
            if i > 0 {
                assert(s[i] == rest[i - 1]);
            }
        }
    } else {
        assert(s.subrange(0, s.len() as int) =~= s);
    }
}

/// A relative path is appended to the directory, with one slash between them; an absolute
/// path stands alone.
pub proof fn law_path_joined(base: Seq<char>, rel: Seq<char>)
    ensures
        rel.len() > 0 && rel[0] == '/' ==> path_joined(base, rel) == rel,
        !(rel.len() > 0 && rel[0] == '/') && base.len() > 0 && base.last() != '/' ==> path_joined(
            base,
            rel,
        ) == base.push('/') + rel,
        !(rel.len() > 0 && rel[0] == '/') ==> path_joined(base.push('/'), rel) == base.push('/')
            + rel,
        !(rel.len() > 0 && rel[0] == '/') ==> path_joined(Seq::empty(), rel) == rel,
{
    reveal_strlit("/");
    assert(base + "/"@ =~= base.push('/'));
    assert(Seq::<char>::empty() + rel =~= rel);
}

} // verus!
