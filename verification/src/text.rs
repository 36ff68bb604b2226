//! Text: building it, cutting it up, and reading and writing decimal numbers.
//!
//! Every function works on characters, so its contract speaks of the character
//! sequence that is the view of a `str` or a `String`.

use vstd::prelude::*;
use vstd::string::{StrSliceExecFns, StringExecFns};
use vstd::utf8::{
    decode_utf8, decode_utf8_encode_utf8, decode_utf8_split, encode_utf8, encode_utf8_decode_utf8,
    encode_utf8_valid_utf8, is_ascii_chars, is_ascii_chars_encode_utf8, is_ascii_chars_nat_bound,
    is_char_boundary, is_char_boundary_iff_not_is_continuation_byte,
    is_char_boundary_start_end_of_seq, valid_utf8_split,
};

verus! {

/// The characters of `s`, one by one.
pub fn chars_of(s: &str) -> (v: Vec<char>)
    ensures
        v@ == s@,
{
    let mut v: Vec<char> = Vec::new();
    for c in it: s.chars()
        invariant
            it.seq() == s@,
            v@ == s@.take(it.index()),
    {
        proof {
            assert(s@.take(it.index() + 1) =~= s@.take(it.index()).push(s@[it.index()]));
        }
        v.push(c);
    }
    assert(s@.take(s@.len() as int) =~= s@);
    v
}

/// Two texts, one after the other.
pub fn cat(a: &str, b: &str) -> (r: String)
    ensures
        r@ == a@ + b@,
{
    let mut r: String = a.to_owned();
    r.append(b);
    r
}

/// Three texts, one after the other.
pub fn cat3(a: &str, b: &str, c: &str) -> (r: String)
    ensures
        r@ == a@ + b@ + c@,
{
    let mut r: String = cat(a, b);
    r.append(c);
    r
}

/// Whether two texts are the same.
pub fn same(a: &str, b: &str) -> (r: bool)
    ensures
        r == (a@ == b@),
{
    a.to_owned() == b.to_owned()
}

/// The characters of `s` from position `from` up to, but not including, `to`.
pub fn slice(s: &str, from: usize, to: usize) -> (r: String)
    requires
        from <= to <= s@.len(),
    ensures
        r@ == s@.subrange(from as int, to as int),
{
    s.substring_char(from, to).to_owned()
}

/// Whether `c` occurs in `s`.
pub fn has_char(s: &str, c: char) -> (r: bool)
    ensures
        r == s@.contains(c),
{
    let v: Vec<char> = chars_of(s);
    for i in 0..v.len()
        invariant
            v@ == s@,
            forall|j: int| 0 <= j < i ==> s@[j] != c,
    {
        if v[i] == c {
            assert(s@[i as int] == c);
            return true;
        }
    }
    false
}

/// Whether `s` begins with `prefix`.
pub fn begins_with(s: &str, prefix: &str) -> (r: bool)
    ensures
        r == prefix@.is_prefix_of(s@),
{
    let n: usize = prefix.unicode_len();
    if n > s.unicode_len() {
        return false;
    }
    let head: String = slice(s, 0, n);
    assert(s@.subrange(0, n as int) =~= prefix@ <==> prefix@.is_prefix_of(s@));
    same(head.as_str(), prefix)
}

// Texts with a limit on their length in bytes.

/// How many bytes of `s` in UTF-8 a limit of `limit` bytes leaves.
pub open spec fn cut_length(s: Seq<char>, limit: nat) -> int {
    if encode_utf8(s).len() < limit {
        encode_utf8(s).len() as int
    } else {
        limit as int
    }
}

/// Whether a limit of `limit` bytes cuts `s` between two characters.
pub open spec fn is_cuttable(s: Seq<char>, limit: nat) -> bool {
    is_char_boundary(encode_utf8(s), cut_length(s, limit))
}

/// The text of the first `limit` bytes of `s`.
pub open spec fn cut(s: Seq<char>, limit: nat) -> Seq<char> {
    decode_utf8(encode_utf8(s).subrange(0, cut_length(s, limit)))
}

/// Whether a limit of `limit` bytes cuts `s` between two characters.
pub fn can_cut(s: &str, limit: usize) -> (r: bool)
    ensures
        r == is_cuttable(s@, limit as nat),
{
    let len: usize = s.as_bytes().len();
    let end: usize = if len < limit {
        len
    } else {
        limit
    };
    s.is_char_boundary(end)
}

/// The text of the first `limit` bytes of `s`.
///
/// The cut must fall between two characters.
pub fn cut_bytes(s: &str, limit: usize) -> (r: String)
    requires
        is_cuttable(s@, limit as nat),
    ensures
        r@ == cut(s@, limit as nat),
{
    let len: usize = s.as_bytes().len();
    let end: usize = if len < limit {
        len
    } else {
        limit
    };
    let r: String = s.split_at(end).0.to_owned();
    proof {
        encode_utf8_decode_utf8(r@);
    }
    r
}

/// What is left of a text under a limit of `limit` bytes has no more bytes than that,
/// and is the front of the text.
pub proof fn law_cut(s: Seq<char>, limit: nat)
    requires
        is_cuttable(s, limit),
    ensures
        encode_utf8(cut(s, limit)).len() <= limit,
        encode_utf8(cut(s, limit)).len() == (if encode_utf8(s).len() < limit {
            encode_utf8(s).len()
        } else {
            limit
        }),
        cut(s, limit).is_prefix_of(s),
        encode_utf8(s).len() <= limit ==> cut(s, limit) == s,
{
    let bytes = encode_utf8(s);
    let n = cut_length(s, limit);
    encode_utf8_valid_utf8(s);
    encode_utf8_decode_utf8(s);
    valid_utf8_split(bytes, n);
    decode_utf8_split(bytes, n);
    decode_utf8_encode_utf8(bytes.subrange(0, n));
    assert(s == cut(s, limit) + decode_utf8(bytes.subrange(n, bytes.len() as int)));
    if bytes.len() <= limit {
        assert(bytes.subrange(0, n) =~= bytes);
    }
}

/// A text of ASCII characters can be cut anywhere, and a byte of it is a character.
pub proof fn law_cut_ascii(s: Seq<char>, limit: nat)
    requires
        is_ascii_chars(s),
    ensures
        is_cuttable(s, limit),
        encode_utf8(s).len() == s.len(),
        cut(s, limit) == (if s.len() < limit {
            s
        } else {
            s.take(limit as int)
        }),
{
    let bytes = encode_utf8(s);
    let n = cut_length(s, limit);
    encode_utf8_valid_utf8(s);
    is_ascii_chars_encode_utf8(s);
    is_char_boundary_start_end_of_seq(bytes);
    if n < bytes.len() {
        is_char_boundary_iff_not_is_continuation_byte(bytes, n);
        assert(bytes[n] == s[n] as u8);
        is_ascii_chars_nat_bound(s);
    }
    law_cut(s, limit);
    valid_utf8_split(bytes, n);
    decode_utf8_encode_utf8(bytes.subrange(0, n));
    let front = cut(s, limit);
    assert(front =~= s.take(front.len() as int));
    assert(is_ascii_chars(front)) by {
        assert forall|i: int| 0 <= i < front.len() implies front[i] as nat <= 127 by {
            assert(front[i] == s[i]);
        }
    }
    is_ascii_chars_encode_utf8(front);
    assert(front.len() == n);
    if s.len() < limit {
        assert(s.take(n) =~= s);
    }
}

/// The views of a sequence of strings.
pub open spec fn views(list: Seq<String>) -> Seq<Seq<char>> {
    Seq::new(list.len(), |i: int| list[i]@)
}

/// A second copy of a list of strings.
pub fn copy_list(list: &Vec<String>) -> (r: Vec<String>)
    ensures
        views(r@) == views(list@),
{
    let mut r: Vec<String> = Vec::new();
    for i in 0..list.len()
        invariant
            r@.len() == i,
            forall|j: int| 0 <= j < i ==> r@[j]@ == list@[j]@,
    {
        r.push(list[i].clone());
    }
    assert(views(r@) =~= views(list@));
    r
}

/// `list` with one blank between neighbours.
pub open spec fn joined(list: Seq<Seq<char>>) -> Seq<char>
    decreases list.len(),
{
    if list.len() == 0 {
        Seq::empty()
    } else if list.len() == 1 {
        list[0]
    } else {
        joined(list.drop_last()) + " "@ + list.last()
    }
}

/// The strings of `list` with one blank between neighbours.
pub fn join(list: &Vec<String>) -> (r: String)
    ensures
        r@ == joined(views(list@)),
{
    let ghost all = views(list@);
    let mut r: String = String::new();
    assert(all.take(0) =~= Seq::<Seq<char>>::empty());
    for i in 0..list.len()
        invariant
            all == views(list@),
            r@ == joined(all.take(i as int)),
    {
        proof {
            assert(all.take(i + 1).drop_last() =~= all.take(i as int));
            assert(all.take(i + 1).last() == list@[i as int]@);
        }
        if i == 0 {
            assert(all.take(1)[0] == list@[0]@);
            r = list[i].clone();
        } else {
            r = cat3(r.as_str(), " ", list[i].as_str());
        }
    }
    assert(all.take(list@.len() as int) =~= all);
    r
}

// Decimal numbers.

/// The decimal digit for a number below ten.
pub open spec fn digit(d: nat) -> char {
    if d == 0 {
        '0'
    } else if d == 1 {
        '1'
    } else if d == 2 {
        '2'
    } else if d == 3 {
        '3'
    } else if d == 4 {
        '4'
    } else if d == 5 {
        '5'
    } else if d == 6 {
        '6'
    } else if d == 7 {
        '7'
    } else if d == 8 {
        '8'
    } else {
        '9'
    }
}

/// `n` in decimal, without leading zeros.
pub open spec fn decimal(n: nat) -> Seq<char>
    decreases n,
{
    if n < 10 {
        seq![digit(n)]
    } else {
        decimal(n / 10).push(digit(n % 10))
    }
}

/// `n` in decimal, with a minus sign before it where it is negative.
pub open spec fn signed_decimal(n: int) -> Seq<char> {
    if n < 0 {
        "-"@ + decimal((-n) as nat)
    } else {
        decimal(n as nat)
    }
}

fn digit_text(d: u64) -> (r: &'static str)
    requires
        d < 10,
    ensures
        r@ == seq![digit(d as nat)],
{
    proof {
        reveal_strlit("0");
        reveal_strlit("1");
        reveal_strlit("2");
        reveal_strlit("3");
        reveal_strlit("4");
        reveal_strlit("5");
        reveal_strlit("6");
        reveal_strlit("7");
        reveal_strlit("8");
        reveal_strlit("9");
    }
    match d {
        0 => "0",
        1 => "1",
        2 => "2",
        3 => "3",
        4 => "4",
        5 => "5",
        6 => "6",
        7 => "7",
        8 => "8",
        _ => "9",
    }
}

/// `n` in decimal.
pub fn number_text(n: u64) -> (r: String)
    ensures
        r@ == decimal(n as nat),
    decreases n,
{
    if n < 10 {
        digit_text(n).to_owned()
    } else {
        let head: String = number_text(n / 10);
        let r: String = cat(head.as_str(), digit_text(n % 10));
        assert(r@ =~= decimal(n as nat));
        r
    }
}

/// `n` in decimal, with its sign.
pub fn signed_text(n: i32) -> (r: String)
    ensures
        r@ == signed_decimal(n as int),
{
    let wide: i64 = n as i64;
    if wide < 0 {
        let size: u64 = (-wide) as u64;
        let digits: String = number_text(size);
        cat("-", digits.as_str())
    } else {
        number_text(wide as u64)
    }
}

/// A run of `n` copies of `c`.
pub open spec fn repeated(c: char, n: nat) -> Seq<char> {
    Seq::new(n, |i: int| c)
}

/// `n` in decimal, with zeros before it up to the width `width`.
pub open spec fn zero_padded(n: nat, width: nat) -> Seq<char> {
    if decimal(n).len() < width {
        repeated('0', (width - decimal(n).len()) as nat) + decimal(n)
    } else {
        decimal(n)
    }
}

/// `n` in decimal, with zeros before it up to the width `width`.
pub fn padded_number(n: u64, width: usize) -> (r: String)
    ensures
        r@ == zero_padded(n as nat, width as nat),
{
    let digits: String = number_text(n);
    let mut len: usize = digits.as_str().unicode_len();
    let mut zeros: String = String::new();
    let ghost start = len;
    proof {
        reveal_strlit("0");
    }
    assert(zeros@ =~= repeated('0', 0));
    while len < width
        invariant
            start <= len,
            len <= width || len == start,
            zeros@ == repeated('0', (len - start) as nat),
            "0"@ =~= seq!['0'],
        decreases width - len,
    {
        zeros.append("0");
        len = len + 1;
        assert(zeros@ =~= repeated('0', (len - start) as nat));
    }
    let r: String = cat(zeros.as_str(), digits.as_str());
    assert(r@ =~= zero_padded(n as nat, width as nat));
    r
}

/// `s` with blanks behind it up to the width `width`.
pub open spec fn left_aligned(s: Seq<char>, width: nat) -> Seq<char> {
    if s.len() < width {
        s + repeated(' ', (width - s.len()) as nat)
    } else {
        s
    }
}

/// `s` with blanks behind it up to the width `width`.
pub fn align_left(s: &str, width: usize) -> (r: String)
    ensures
        r@ == left_aligned(s@, width as nat),
{
    let mut r: String = s.to_owned();
    let mut len: usize = s.unicode_len();
    proof {
        reveal_strlit(" ");
    }
    assert(r@ =~= s@ + repeated(' ', 0));
    while len < width
        invariant
            s@.len() <= len,
            len <= width || len == s@.len(),
            r@ == s@ + repeated(' ', (len - s@.len()) as nat),
            " "@ =~= seq![' '],
        decreases width - len,
    {
        r.append(" ");
        len = len + 1;
        assert(r@ =~= s@ + repeated(' ', (len - s@.len()) as nat));
    }
    assert(r@ =~= left_aligned(s@, width as nat));
    r
}

/// Whether `c` is one of the ten decimal digits.
pub open spec fn is_digit(c: char) -> bool {
    '0' <= c <= '9'
}

/// The number that a sequence of decimal digits stands for.
pub open spec fn decimal_value(s: Seq<char>) -> nat
    decreases s.len(),
{
    if s.len() == 0 {
        0
    } else {
        decimal_value(s.drop_last()) * 10 + (s.last() as nat - '0' as nat) as nat
    }
}

/// What is left of `s` without one plus sign at its front.
pub open spec fn without_plus(s: Seq<char>) -> Seq<char> {
    if s.len() > 0 && s[0] == '+' {
        s.drop_first()
    } else {
        s
    }
}

/// Whether `s` is a number: one digit or more, and nothing else but a plus sign
/// before them.
pub open spec fn is_number(s: Seq<char>) -> bool {
    &&& without_plus(s).len() > 0
    &&& forall|i: int| 0 <= i < without_plus(s).len() ==> is_digit(#[trigger] without_plus(s)[i])
}

/// The `u64` that `s` spells, if it spells one.
pub open spec fn parsed_u64(s: Seq<char>) -> Option<u64> {
    if is_number(s) && decimal_value(without_plus(s)) <= u64::MAX {
        Some(decimal_value(without_plus(s)) as u64)
    } else {
        None
    }
}

proof fn lemma_value_grows(s: Seq<char>, i: int)
    requires
        0 <= i <= s.len(),
        forall|j: int| 0 <= j < s.len() ==> is_digit(#[trigger] s[j]),
    ensures
        decimal_value(s.take(i)) <= decimal_value(s),
    decreases s.len() - i,
{
    if i == s.len() {
        assert(s.take(i) =~= s);
    } else {
        assert(s.take(i + 1).drop_last() =~= s.take(i));
        lemma_value_grows(s, i + 1);
    }
}

/// The `u64` that `s` spells: decimal digits, with or without a plus sign.
pub fn parse_u64(s: &str) -> (r: Option<u64>)
    ensures
        r == parsed_u64(s@),
{
    let v: Vec<char> = chars_of(s);
    let mut i: usize = 0;
    if v.len() > 0 && v[0] == '+' {
        i = 1;
    }
    let ghost digits = without_plus(s@);
    let ghost first = i;
    if i >= v.len() {
        assert(digits.len() == 0);
        return None;
    }
    let mut value: u64 = 0;
    assert(digits.take(0) =~= Seq::<char>::empty());
    while i < v.len()
        invariant
            v@ == s@,
            digits == without_plus(s@),
            first <= i <= v@.len(),
            digits =~= s@.skip(first as int),
            forall|j: int| 0 <= j < i - first ==> is_digit(#[trigger] digits[j]),
            value == decimal_value(digits.take(i - first)),
        decreases v.len() - i,
    {
        let c: char = v[i];
        let ghost at = (i - first) as int;
        assert(digits[at] == c);
        if !('0' <= c && c <= '9') {
            return None;
        }
        let d: u64 = c as u64 - '0' as u64;
        proof {
            assert(digits.take(at + 1).drop_last() =~= digits.take(at));
            assert(decimal_value(digits.take(at + 1)) == value * 10 + d);
        }
        if value > (u64::MAX - d) / 10 {
            proof {
                if is_number(s@) {
                    lemma_value_grows(digits, at + 1);
                }
            }
            return None;
        }
        value = value * 10 + d;
        i = i + 1;
    }
    assert(digits.take(digits.len() as int) =~= digits);
    Some(value)
}

/// What is written of a number and read back is the number.
pub proof fn law_decimal_round_trip(n: u64)
    ensures
        parsed_u64(decimal(n as nat)) == Some(n),
{
    lemma_decimal_digits(n as nat);
    assert(without_plus(decimal(n as nat)) == decimal(n as nat)) by {
        assert(is_digit(decimal(n as nat)[0]));
    }
}

proof fn lemma_decimal_digits(n: nat)
    ensures
        decimal(n).len() > 0,
        forall|i: int| 0 <= i < decimal(n).len() ==> is_digit(#[trigger] decimal(n)[i]),
        decimal_value(decimal(n)) == n,
    decreases n,
{
    if n < 10 {
        assert(decimal(n).drop_last() =~= Seq::<char>::empty());
        assert(decimal_value(Seq::<char>::empty()) == 0);
        assert(decimal(n).last() == digit(n));
    } else {
        lemma_decimal_digits(n / 10);
        assert(decimal(n).drop_last() =~= decimal(n / 10));
        assert(decimal(n).last() == digit(n % 10));
    }
}

/// Different numbers are written differently.
pub proof fn law_decimal_distinct(a: nat, b: nat)
    requires
        decimal(a) == decimal(b),
    ensures
        a == b,
{
    lemma_decimal_digits(a);
    lemma_decimal_digits(b);
}

/// A number below ten is written as the one character that is so many places behind `0`;
/// any other as its tenth part, and behind it what is left of it.
pub proof fn law_decimal(n: nat)
    ensures
        n < 10 ==> decimal(n).len() == 1 && decimal(n)[0] as nat == '0' as nat + n,
        n >= 10 ==> decimal(n) == decimal(n / 10) + decimal(n % 10),
        decimal(n).len() > 1 ==> decimal(n)[0] != '0',
    decreases n,
{
    if n >= 10 {
        law_decimal(n / 10);
        lemma_decimal_digits(n / 10);
        let tail = decimal(n % 10);
        assert(tail =~= seq![digit(n % 10)]);
        assert(decimal(n) =~= decimal(n / 10) + tail);
        assert(decimal(n)[0] == decimal(n / 10)[0]);
        if n < 100 {
            law_decimal(n / 10);
            assert(decimal(n / 10)[0] as nat == '0' as nat + n / 10);
        }
    }
}

/// A negative number is written as what it is below zero, with a minus sign before it.
pub proof fn law_signed_decimal(n: int)
    ensures
        n >= 0 ==> signed_decimal(n) == decimal(n as nat),
        n < 0 ==> signed_decimal(n) == seq!['-'] + decimal((-n) as nat),
{
    reveal_strlit("-");
    assert("-"@ =~= seq!['-']);
}

/// How a number is read, digit by digit: the empty text is none; a digit alone is its
/// value; a digit behind a number makes it ten times as large and adds its value, as long
/// as there is room for that; nothing else may stand behind a number, and before it only
/// one plus sign.
pub proof fn law_parsed(s: Seq<char>, c: char)
    ensures
        parsed_u64(Seq::empty()) is None,
        '0' <= c <= '9' ==> parsed_u64(seq![c]) == Some((c as u64 - '0' as u64) as u64),
        !('0' <= c <= '9') ==> parsed_u64(s.push(c)) is None,
        '0' <= c <= '9' ==> (parsed_u64(s) matches Some(n) ==> parsed_u64(s.push(c)) == (if n * 10
            + (c as nat - '0' as nat) <= u64::MAX {
            Some((n * 10 + (c as nat - '0' as nat)) as u64)
        } else {
            None
        })),
        s.len() > 0 && parsed_u64(s) is None && s != seq!['+'] ==> parsed_u64(s.push(c)) is None,
        s.len() > 0 && s[0] != '+' ==> parsed_u64(seq!['+'] + s) == parsed_u64(s),
        parsed_u64(seq!['+', '+'] + s) is None,
{
    let one = seq![c];
    let longer = s.push(c);
    if '0' <= c <= '9' {
        assert(without_plus(one) == one);
        assert(one.drop_last() =~= Seq::<char>::empty());
        assert(is_digit(one[0]));
        assert(decimal_value(one) == decimal_value(one.drop_last()) * 10 + (one.last() as nat
            - '0' as nat) as nat);
        assert(is_number(one));
    }
    if s.len() > 0 {
        let t = without_plus(s);
        assert(without_plus(longer) =~= t.push(c));
        assert(t.push(c).drop_last() =~= t);
        assert(t.push(c).last() == c);
        assert(decimal_value(t.push(c)) == decimal_value(t) * 10 + (c as nat - '0' as nat) as nat);
        if is_number(longer) {
            assert(t.push(c)[t.len() as int] == c);
            assert(is_digit(c));
            assert forall|i: int| 0 <= i < t.len() implies is_digit(#[trigger] t[i]) by {
                assert(t.push(c)[i] == t[i]);
            }
            if t.len() == 0 {
                assert(s =~= seq!['+']);
            }
        }
        if is_number(s) && is_digit(c) {
            assert forall|i: int| 0 <= i < t.push(c).len() implies is_digit(
                #[trigger] t.push(c)[i],
            ) by {
                if i < t.len() {
                    assert(t.push(c)[i] == t[i]);
                }
            }
        }
        if s[0] != '+' {
            assert(without_plus(seq!['+'] + s) =~= s);
        }
    } else {
        assert(longer =~= one);
        if !('0' <= c <= '9') {
            if c == '+' {
                assert(without_plus(one) =~= Seq::<char>::empty());
            } else {
                assert(without_plus(one)[0] == c);
            }
        }
    }
    let twice = seq!['+', '+'] + s;
    assert(without_plus(twice)[0] == '+');
    assert(!is_digit(without_plus(twice)[0]));
    assert(without_plus(Seq::empty()) == Seq::<char>::empty());
}

/// A text that is aligned to the left keeps its front and is filled up with blanks behind
/// it; a number that is filled up keeps its end, with zeros before it. Neither is cut.
pub proof fn law_filled_up(s: Seq<char>, n: nat, width: nat)
    ensures
        ({
            let left = left_aligned(s, width);
            &&& s.is_prefix_of(left)
            &&& left.len() == (if s.len() < width {
                width
            } else {
                s.len()
            })
            &&& forall|i: int| s.len() <= i < left.len() ==> #[trigger] left[i] == ' '
        }),
        ({
            let right = zero_padded(n, width);
            let digits = decimal(n);
            let zeros = right.len() - digits.len();
            &&& right.len() == (if digits.len() < width {
                width
            } else {
                digits.len()
            })
            &&& right.skip(zeros) == digits
            &&& forall|i: int| 0 <= i < zeros ==> #[trigger] right[i] == '0'
        }),
{
    let right = zero_padded(n, width);
    let zeros = right.len() - decimal(n).len();
    assert(right.skip(zeros) =~= decimal(n));
}

/// Texts are joined one after the other, with a blank between two.
pub proof fn law_joined(list: Seq<Seq<char>>, last: Seq<char>)
    ensures
        joined(Seq::empty()) == Seq::<char>::empty(),
        joined(seq![last]) == last,
        list.len() > 0 ==> joined(list.push(last)) == joined(list) + seq![' '] + last,
{
    reveal_strlit(" ");
    assert(" "@ =~= seq![' ']);
    assert(list.push(last).drop_last() =~= list);
}

} // verus!
