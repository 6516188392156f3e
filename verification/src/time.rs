//! Points in time.
use vstd::prelude::*;

verus! {

/// A point in time: whole seconds since the start of 1970 in UTC, and the nanoseconds beyond them.
#[derive(Debug, Clone, Copy, PartialEq, Eq, Structural)]
pub struct Timestamp {
    pub secs: i64,
    pub nanos: u32,
}

impl Timestamp {
    /// `self` comes before `other`.
    pub open spec fn before(self, other: Timestamp) -> bool {
        self.secs < other.secs || (self.secs == other.secs && self.nanos < other.nanos)
    }

    /// Whether `self` comes before `other`.
    pub fn is_before(self, other: Timestamp) -> (res: bool)
        ensures
            res == self.before(other),
    {
        self.secs < other.secs || (self.secs == other.secs && self.nanos < other.nanos)
    }
}

/// The seconds and nanoseconds of the point in time that chrono reads out of a text, where the
/// text is one.
pub uninterp spec fn utc_time(text: Seq<char>) -> Option<(i64, u32)>;

/// The point in time that a text denotes.
pub open spec fn timestamp_of(text: Seq<char>) -> Option<Timestamp> {
    match utc_time(text) {
        Some(t) => Some(Timestamp { secs: t.0, nanos: t.1 }),
        None => None,
    }
}

/// `chrono::DateTime::<Utc>::from_str`, then `timestamp` and `timestamp_subsec_nanos`: what is read
/// depends on the text alone. Which texts denote a point in time, and which one, is not stated.
#[verifier::external_body]
fn read_utc(text: &str) -> (res: Option<(i64, u32)>)
    ensures
        res == utc_time(text@),
{
    let parsed: Result<chrono::DateTime<chrono::Utc>, chrono::ParseError> = text.parse();
    parsed.ok().map(|t| (t.timestamp(), t.timestamp_subsec_nanos()))
}

/// Reads a point in time.
pub fn parse_timestamp(text: &str) -> (res: Option<Timestamp>)
    ensures
        res == timestamp_of(text@),
{
    match read_utc(text) {
        Some(t) => Some(Timestamp { secs: t.0, nanos: t.1 }),
        None => None,
    }
}

// ── Laws ─────────────────────────────────────────────────────────────────────
/// Of two points in time just one comes before the other, unless they are the same.
pub proof fn law_times_are_ordered(a: Timestamp, b: Timestamp, c: Timestamp)
    ensures
        !a.before(a),
        a == b || a.before(b) || b.before(a),
        !(a.before(b) && b.before(a)),
        a.before(b) && b.before(c) ==> a.before(c),
        a.secs < b.secs ==> a.before(b),
        a.secs == b.secs && a.nanos < b.nanos ==> a.before(b),
{
}

/// What chrono reads out of a text is taken as it is.
pub proof fn law_times_are_read(text: Seq<char>)
    ensures
        (timestamp_of(text) is None) == (utc_time(text) is None),
        timestamp_of(text) matches Some(t) ==> utc_time(text) == Some((t.secs, t.nanos)),
{
}

} // verus!
