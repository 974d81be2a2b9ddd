//! The wall clock.
use vstd::prelude::*;

verus! {

/// `s` has the outer form of a UTC time stamp as chrono's `to_rfc3339` writes it: at
/// least the 25 characters of `YYYY-MM-DDTHH:MM:SS+00:00`, ending in the offset
/// `+00:00`.
pub open spec fn is_utc_rfc3339(s: Seq<char>) -> bool {
    s.len() >= 25 && s.subrange(s.len() - 6, s.len() as int) == "+00:00"@
}

/// `chrono::Utc::now().to_rfc3339()`: the current time as RFC 3339 text. The moment is
/// the clock's; the contract states the form that chrono writes for a UTC time: a date
/// of at least four year digits, the time, possibly a fraction, and the offset
/// `+00:00` (`write_rfc3339` with a zero offset and no `Z`).
#[verifier::external_body]
pub(crate) fn now_rfc3339() -> (r: String)
    ensures
        is_utc_rfc3339(r@),
{
    chrono::Utc::now().to_rfc3339()
}

/// `s` ends as chrono's `%Y%m%d_%H%M%S` ends: at least 15 characters, the last seven
/// of them `_` and six digits (hour, minute and second).
pub open spec fn is_compact_stamp(s: Seq<char>) -> bool {
    &&& s.len() >= 15
    &&& s[s.len() - 7] == '_'
    &&& forall|i: int| s.len() - 6 <= i < s.len() ==> '0' <= #[trigger] s[i] && s[i] <= '9'
}

/// `chrono::Utc::now().format("%Y%m%d_%H%M%S").to_string()`: the current time as a
/// compact stamp. The moment is the clock's; the contract states the form the format
/// writes: the year (four digits, or more with a sign), month and day, `_`, and the
/// time as six digits.
#[verifier::external_body]
pub(crate) fn now_compact_stamp() -> (r: String)
    ensures
        is_compact_stamp(r@),
{
    chrono::Utc::now().format("%Y%m%d_%H%M%S").to_string()
}

} // verus!
