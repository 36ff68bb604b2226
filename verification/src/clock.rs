//! Time stamps.

use crate::text::{cat, cat3, decimal, padded_number, repeated, zero_padded};
use vstd::prelude::*;

verus! {

#[verifier::external_type_specification]
#[verifier::external_body]
pub struct ExSystemTime(std::time::SystemTime);

#[verifier::external_type_specification]
#[verifier::external_body]
pub struct ExSystemTimeError(std::time::SystemTimeError);

/// `std::time::SystemTime::now` reads the clock of the host. Nothing is claimed of
/// what it shows.
pub assume_specification[ std::time::SystemTime::now ]() -> (now: std::time::SystemTime);

/// `std::time::Duration::as_secs` gives the whole seconds of a span of time. A span
/// is opaque here, so nothing is claimed of the number.
pub assume_specification[ std::time::Duration::as_secs ](span: &std::time::Duration) -> (secs: u64);

/// Calls `std::time::SystemTime::duration_since` with the Unix epoch. Nothing is
/// claimed of the span, nor of when the clock stands before the epoch.
#[verifier::external_body]
fn since_epoch(now: &std::time::SystemTime) -> (span: std::result::Result<
    std::time::Duration,
    std::time::SystemTimeError,
>) {
    now.duration_since(std::time::UNIX_EPOCH)
}

/// The time stamp for a count of seconds since 1970: the year, counted in spans of
/// 365 days, the first of January, and the time of day.
pub open spec fn time_stamp(secs: nat) -> Seq<char> {
    zero_padded(1970 + secs / 31_536_000, 4) + "-01-01T"@ + zero_padded(secs / 3600 % 24, 2)
        + ":"@ + zero_padded(secs / 60 % 60, 2) + ":"@ + zero_padded(secs % 60, 2) + "Z"@
}

/// Whether `s` is the time stamp of some moment.
pub open spec fn is_time_stamp(s: Seq<char>) -> bool {
    exists|secs: u64| s == #[trigger] time_stamp(secs as nat)
}

/// The time stamp for `secs` seconds since 1970.
pub fn stamp(secs: u64) -> (r: String)
    ensures
        r@ == time_stamp(secs as nat),
{
    let year: String = padded_number(1970 + secs / 31_536_000, 4);
    let hour: String = padded_number(secs / 3600 % 24, 2);
    let minute: String = padded_number(secs / 60 % 60, 2);
    let second: String = padded_number(secs % 60, 2);
    let day: String = cat3(year.as_str(), "-01-01T", hour.as_str());
    let time: String = cat3(day.as_str(), ":", minute.as_str());
    let full: String = cat3(time.as_str(), ":", second.as_str());
    cat(full.as_str(), "Z")
}

/// The time stamp of this moment; that of the year 1970 where the clock stands
/// before it.
pub fn now_iso() -> (r: String)
    ensures
        is_time_stamp(r@),
{
    let now: std::time::SystemTime = std::time::SystemTime::now();
    match since_epoch(&now) {
        Ok(span) => stamp(span.as_secs()),
        Err(_) => stamp(0),
    }
}

/// A time stamp is 20 characters long up to the year 9999.
pub proof fn law_stamp_length(secs: nat)
    requires
        secs / 31_536_000 <= 8029,
    ensures
        time_stamp(secs).len() == 20,
{
    reveal_strlit("-01-01T");
    reveal_strlit(":");
    reveal_strlit("Z");
    let year = 1970 + secs / 31_536_000;
    assert(zero_padded(year, 4).len() == 4) by {
        reveal_with_fuel(crate::text::decimal, 5);
        assert(1000 <= year < 10000);
    }
    lemma_two_digits(secs / 3600 % 24);
    lemma_two_digits(secs / 60 % 60);
    lemma_two_digits(secs % 60);
}

proof fn lemma_two_digits(n: nat)
    requires
        n < 100,
    ensures
        zero_padded(n, 2).len() == 2,
{
    reveal_with_fuel(crate::text::decimal, 3);
}


/// Two digits for a number below a hundred.
pub open spec fn two_digits(n: nat) -> Seq<char> {
    decimal(n / 10) + decimal(n % 10)
}

/// A time stamp tells the hours, minutes and seconds that have passed since the day began,
/// in two digits each, on the first day of a year; every 365 days since 1970 count as one
/// year.
pub proof fn law_stamp_reads(year: nat, day: nat, h: nat, m: nat, s: nat)
    requires
        day < 365,
        h < 24,
        m < 60,
        s < 60,
        year <= 8029,
    ensures
        time_stamp(((year * 365 + day) * 24 + h) * 3600 + m * 60 + s) == decimal(1970 + year)
            + "-01-01T"@ + two_digits(h) + ":"@ + two_digits(m) + ":"@ + two_digits(s) + "Z"@,
{
    let days = year * 365 + day;
    let hours = days * 24 + h;
    let secs = hours * 3600 + m * 60 + s;
    assert(secs / 3600 == hours);
    assert(secs / 60 == hours * 60 + m);
    assert(secs / 60 % 60 == m);
    assert(secs % 60 == s);
    assert(hours % 24 == h);
    assert(secs / 31_536_000 == year);
    lemma_as_two(h);
    lemma_as_two(m);
    lemma_as_two(s);
    assert(zero_padded(1970 + year, 4) == decimal(1970 + year)) by {
        reveal_with_fuel(decimal, 5);
        assert(1000 <= 1970 + year < 10000);
        assert(decimal(1970 + year).len() == 4);
    }
}

proof fn lemma_as_two(n: nat)
    requires
        n < 100,
    ensures
        zero_padded(n, 2) == two_digits(n),
{
    reveal_with_fuel(decimal, 3);
    if n < 10 {
        assert(repeated('0', 1) =~= decimal(0));
    } else {
        assert(decimal(n) =~= two_digits(n));
    }
}

} // verus!
