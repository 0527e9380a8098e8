//! Instants, as the server reports them.

use vstd::prelude::*;

verus! {

/// An instant on the UTC time line: the whole seconds since
/// 1970-01-01T00:00:00Z, leap seconds not counted, and the nanoseconds since
/// the last whole second. During a leap second `nanos` runs on past
/// 999,999,999.
#[derive(Clone, Copy, Debug, PartialEq, Eq, Structural)]
pub struct Timestamp {
    pub seconds: i64,
    pub nanos: u32,
}

/// The instant that `chrono` reads from a text, as seconds and nanoseconds,
/// or `None` where it reports an error.
pub uninterp spec fn instant_of_text(text: Seq<char>) -> Option<(i64, u32)>;

/// The instant that a text denotes.
pub open spec fn timestamp_of(text: Seq<char>) -> Option<Timestamp> {
    match instant_of_text(text) {
        Some((seconds, nanos)) => Some(Timestamp { seconds, nanos }),
        None => None,
    }
}

/// `str::parse` at `chrono::DateTime<chrono::Utc>`, which reads a date and
/// time in the relaxed RFC 3339 form and moves it to UTC. Trusted: it
/// succeeds exactly on the texts that `instant_of_text` maps to an instant,
/// and the result holds what `DateTime::timestamp` and
/// `DateTime::timestamp_subsec_nanos` report of the parsed value.
#[verifier::external_body]
pub(crate) fn parse_instant(text: &str) -> (r: Option<Timestamp>)
    ensures
        match r {
            Some(at) => instant_of_text(text@) == Some((at.seconds, at.nanos)),
            None => instant_of_text(text@) is None,
        },
{
    match text.parse::<chrono::DateTime<chrono::Utc>>() {
        Ok(at) => Some(Timestamp { seconds: at.timestamp(), nanos: at.timestamp_subsec_nanos() }),
        Err(_) => None,
    }
}

impl Timestamp {
    /// Reads an instant from its text.
    pub fn parse(text: &str) -> (r: Option<Timestamp>)
        ensures
            r == timestamp_of(text@),
    {
        parse_instant(text)
    }
}

} // verus!
