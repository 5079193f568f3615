//! Fresh identifiers and timestamps: the values of this library that come
//! from outside (the random number generator and the clock), and the
//! reading of RFC 3339 dates.

use vstd::prelude::*;
use vstd::string::*;
use crate::text::owned;

verus! {

/// A lower-case hexadecimal digit.
pub open spec fn is_lower_hex(c: char) -> bool {
    ('0' <= c && c <= '9') || ('a' <= c && c <= 'f')
}

/// The shape of an identifier suffix: eight lower-case hexadecimal digits.
pub open spec fn is_uid(s: Seq<char>) -> bool {
    s.len() == 8 && forall|i: int| 0 <= i < 8 ==> is_lower_hex(#[trigger] s[i])
}

/// The hyphenated text of a UUID: 36 characters, lower-case hexadecimal
/// digits but for `-` at positions 8, 13, 18 and 23.
pub open spec fn is_hyphenated_uuid(s: Seq<char>) -> bool {
    &&& s.len() == 36
    &&& forall|i: int|
        0 <= i < 36 ==> (if i == 8 || i == 13 || i == 18 || i == 23 {
            #[trigger] s[i] == '-'
        } else {
            is_lower_hex(s[i])
        })
}

/// Trusted: `uuid::Uuid::new_v4`, rendered by its `Display` impl, which
/// writes the lower-case hyphenated form (`fmt::LowerHex` of
/// `as_hyphenated`): groups of 8, 4, 4, 4 and 12 lower-case hex digits
/// joined by `-`. Which digits come out is left open (they are random).
#[verifier::external_body]
fn new_uuid_text() -> (r: String)
    ensures
        is_hyphenated_uuid(r@),
{
    uuid::Uuid::new_v4().to_string()
}

/// A fresh identifier suffix: the first eight characters (the first group)
/// of a new random UUID.
pub(crate) fn uid() -> (r: String)
    ensures
        is_uid(r@),
{
    let full = new_uuid_text();
    let part = full.as_str().substring_char(0, 8);
    proof {
        assert forall|i: int| 0 <= i < 8 implies is_lower_hex(#[trigger] part@[i]) by {
            assert(part@[i] == full@[i]);
        }
    }
    owned(part)
}

/// The text of a clock reading in UTC as `to_rfc3339` writes it: whatever
/// the date and time, it ends with the offset `+00:00`.
pub open spec fn is_utc_clock_text(s: Seq<char>) -> bool {
    s.len() > 6 && s.subrange(s.len() - 6, s.len() as int) == seq!['+', '0', '0', ':', '0', '0']
}

/// Trusted: `chrono::Utc::now`, rendered with `DateTime::to_rfc3339`. Which
/// time is read is left open (it is the clock); the source writes the date,
/// `T`, the time and then the offset, which for UTC is written `+00:00`
/// (`OffsetFormat` with `allow_zulu` off).
#[verifier::external_body]
pub(crate) fn now() -> (r: String)
    ensures
        is_utc_clock_text(r@),
{
    chrono::Utc::now().to_rfc3339()
}

/// Trusted: `chrono::Utc::now`, as seconds since the Unix epoch
/// (`DateTime::timestamp`). It reads the clock, so nothing is claimed of the
/// number.
#[verifier::external_body]
pub(crate) fn now_seconds() -> (r: i64) {
    chrono::Utc::now().timestamp()
}

/// The instant an RFC 3339 date and time denotes, in seconds since the Unix
/// epoch, as `DateTime::parse_from_rfc3339` followed by `timestamp` gives it;
/// `None` when the text is not RFC 3339. It depends on the text alone: the
/// offset is read from the text.
pub uninterp spec fn rfc3339_seconds(s: Seq<char>) -> Option<i64>;

/// Trusted: `chrono::DateTime::parse_from_rfc3339`, then `timestamp` on the
/// parsed value; a parse error gives `None`.
#[verifier::external_body]
pub(crate) fn parse_rfc3339_seconds(s: &str) -> (r: Option<i64>)
    ensures
        r == rfc3339_seconds(s@),
{
    chrono::DateTime::parse_from_rfc3339(s).ok().map(|t| t.timestamp())
}

} // verus!
