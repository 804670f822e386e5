//! The time stamp of a downloaded file.

use vstd::prelude::*;

verus! {

/// The moment, in seconds since the Unix epoch, that a date in the format of
/// RFC 2822 names.
pub uninterp spec fn rfc2822_seconds(s: Seq<char>) -> Option<i64>;

/// `chrono::DateTime::parse_from_rfc2822`, as seconds since the Unix epoch. The
/// moment is a function of the text.
#[verifier::external_body]
fn parse_rfc2822(s: &str) -> (r: Option<i64>)
    ensures
        r == rfc2822_seconds(s@),
{
    chrono::DateTime::parse_from_rfc2822(s).ok().map(|t| t.timestamp())
}

/// The modification time to give a file, in seconds since the Unix epoch: the
/// one that the server named, if it named one in the right format.
pub fn modification_time(last_modified: Option<&str>) -> (r: Option<i64>)
    ensures
        r == (match last_modified {
            Some(s) => rfc2822_seconds(s@),
            None => None,
        }),
{
    match last_modified {
        Some(s) => parse_rfc2822(s),
        None => None,
    }
}

} // verus!
