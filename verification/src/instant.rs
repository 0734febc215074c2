//! Instants, as nanoseconds since the Unix epoch.

use crate::text;
use time::format_description::well_known::Rfc3339;
use time::OffsetDateTime;
use vstd::prelude::*;

verus! {

/// The instant that an RFC 3339 timestamp denotes, or the text of the error
/// where the text is none.
pub uninterp spec fn rfc3339_instant(s: Seq<char>) -> Result<i128, Seq<char>>;

/// What a result of an instant or an error text holds.
pub open spec fn instant_or_text(r: Result<i128, String>) -> Result<i128, Seq<char>> {
    match r {
        Ok(i) => Ok(i),
        Err(e) => Err(e@),
    }
}

/// `time::OffsetDateTime::parse` under the well known format `Rfc3339`, as
/// nanoseconds since the Unix epoch. The outcome is a function of the text
/// alone, named [`rfc3339_instant`]; an error is handed on as its text.
#[verifier::external_body]
fn parse_rfc3339(s: &str) -> (r: Result<i128, String>)
    ensures
        instant_or_text(r) == rfc3339_instant(s@),
{
    OffsetDateTime::parse(s, &Rfc3339)
        .map(|t| t.unix_timestamp_nanos())
        .map_err(|e| e.to_string())
}

/// The instant that a SAML `dateTime` denotes. White space around it does not
/// count.
pub open spec fn saml_instant(s: Seq<char>) -> Result<i128, Seq<char>> {
    match rfc3339_instant(text::trimmed(s)) {
        Ok(i) => Ok(i),
        Err(e) => Err("bad dateTime '"@ + s + "': "@ + e),
    }
}

/// Reads a SAML `dateTime` (RFC 3339).
pub fn parse_instant(s: &str) -> (r: Result<i128, String>)
    ensures
        instant_or_text(r) == saml_instant(s@),
{
    match parse_rfc3339(text::trim(s)) {
        Ok(i) => Ok(i),
        Err(e) => {
            let quoted = text::joined3("bad dateTime '", s, "': ");
            Err(text::joined(quoted.as_str(), e.as_str()))
        },
    }
}

/// Whether `a + b` is less than `c`, also where the sum does not fit.
pub fn sum_before(a: i128, b: i128, c: i128) -> (r: bool)
    ensures
        r == (a + b < c),
{
    match a.checked_add(b) {
        Some(sum) => sum < c,
        None => b < 0,
    }
}

/// Whether `a - b` is less than `c`, also where the difference does not fit.
pub fn difference_before(a: i128, b: i128, c: i128) -> (r: bool)
    ensures
        r == (a - b < c),
{
    match a.checked_sub(b) {
        Some(difference) => difference < c,
        None => b > 0,
    }
}

} // verus!
