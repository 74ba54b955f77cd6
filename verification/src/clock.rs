//! Values that come from the clock and from the random number generator.
use vstd::prelude::*;

verus! {

/// A decimal digit.
pub open spec fn is_digit(c: char) -> bool {
    '0' <= c && c <= '9'
}

/// A lower-case hexadecimal digit.
pub open spec fn is_lower_hex(c: char) -> bool {
    is_digit(c) || ('a' <= c && c <= 'f')
}

/// The hyphenated lower-case text of a version 4 (random) UUID:
/// `xxxxxxxx-xxxx-4xxx-Vxxx-xxxxxxxxxxxx` with `V` one of `8`, `9`, `a`, `b`.
pub open spec fn uuid_v4_text(s: Seq<char>) -> bool {
    &&& s.len() == 36
    &&& forall|k: int|
        0 <= k < 36 ==> if k == 8 || k == 13 || k == 18 || k == 23 {
            s[k] == '-'
        } else {
            is_lower_hex(#[trigger] s[k])
        }
    &&& s[14] == '4'
    &&& (s[19] == '8' || s[19] == '9' || s[19] == 'a' || s[19] == 'b')
}

/// A UTC time as RFC 3339 writes it: at least `YYYY-MM-DDTHH:MM:SS`, and
/// the offset `+00:00` at the end.
pub open spec fn rfc3339_utc_text(s: Seq<char>) -> bool {
    let n = s.len() as int;
    &&& n >= 25
    &&& s[n - 6] == '+'
    &&& s[n - 5] == '0'
    &&& s[n - 4] == '0'
    &&& s[n - 3] == ':'
    &&& s[n - 2] == '0'
    &&& s[n - 1] == '0'
}

/// A time as `YYYY-MM-DD HH:MM:SS`; a year beyond four digits makes the
/// text longer at the front.
pub open spec fn sql_datetime_text(s: Seq<char>) -> bool {
    let n = s.len() as int;
    &&& n >= 19
    &&& forall|k: int|
        n - 15 <= k < n ==> if k == n - 15 || k == n - 12 {
            s[k] == '-'
        } else if k == n - 9 {
            s[k] == ' '
        } else if k == n - 6 || k == n - 3 {
            s[k] == ':'
        } else {
            is_digit(#[trigger] s[k])
        }
}

/// `chrono::Utc::now()` written as RFC 3339 (`to_rfc3339`). Claimed: the
/// form of the text (date and time, then the offset `+00:00`); the time
/// itself depends on the clock.
#[verifier::external_body]
pub(crate) fn now_rfc3339() -> (r: String)
    ensures
        rfc3339_utc_text(r@),
{
    chrono::Utc::now().to_rfc3339()
}

/// `chrono::Utc::now()` written as `YYYY-MM-DD HH:MM:SS`, the form of
/// SQLite's `datetime('now')`. Claimed: that form (chrono writes a year
/// outside 0..=9999 with a sign and more digits); the time itself depends
/// on the clock.
#[verifier::external_body]
pub(crate) fn now_sql_datetime() -> (r: String)
    ensures
        sql_datetime_text(r@),
{
    chrono::Utc::now().format("%Y-%m-%d %H:%M:%S").to_string()
}

/// `uuid::Uuid::new_v4()` in its hyphenated text form (`to_string`).
/// Claimed: the text is a hyphenated lower-case version 4 UUID; its random
/// digits are not.
#[verifier::external_body]
pub(crate) fn new_id() -> (r: String)
    ensures
        uuid_v4_text(r@),
{
    uuid::Uuid::new_v4().to_string()
}

} // verus!
