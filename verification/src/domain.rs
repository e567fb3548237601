//! The radar's shared vocabulary: which source a snapshot comes from, the
//! attribution it carries, and the instants it is stamped with.
use vstd::prelude::*;

verus! {

/// The two radar feeds the companion can follow.
#[derive(Debug, Clone, Copy, PartialEq, Eq, Hash, Structural)]
pub enum RadarSource {
    Main,
    Distributed,
}

impl Default for RadarSource {
    fn default() -> (r: Self)
        ensures
            r == RadarSource::Main,
    {
        RadarSource::Main
    }
}

/// The attribution that a snapshot must display.
#[derive(Debug, Clone, PartialEq, Eq)]
pub struct Attribution {
    pub text: String,
    pub url: String,
}

/// An instant together with the UTC offset it was written in.
///
/// `seconds` and `nanos` locate the instant on the UTC time line (seconds since the
/// Unix epoch, and the sub-second part); `offset_seconds` is the offset east of UTC
/// that the source text used.
#[derive(Debug, Clone, Copy, PartialEq, Eq, Structural)]
pub struct Timestamp {
    pub seconds: i64,
    pub nanos: u32,
    pub offset_seconds: i32,
}

impl Timestamp {
    /// `self` is strictly earlier on the time line than `other` (offsets do not matter).
    pub open spec fn earlier_than(self, other: Timestamp) -> bool {
        self.seconds < other.seconds || (self.seconds == other.seconds && self.nanos
            < other.nanos)
    }

    /// Whether `self` is strictly earlier than `other`.
    pub fn is_earlier_than(&self, other: &Timestamp) -> (r: bool)
        ensures
            r == self.earlier_than(*other),
    {
        self.seconds < other.seconds || (self.seconds == other.seconds && self.nanos
            < other.nanos)
    }
}

/// The instant that `chrono::DateTime::parse_from_rfc3339` reads from `text`, or
/// `None` where it refuses the text.
pub uninterp spec fn rfc3339_timestamp(text: Seq<char>) -> Option<Timestamp>;

/// Reads an RFC 3339 date-time.
///
/// Trusted: calls `chrono::DateTime::parse_from_rfc3339` and converts its result;
/// the contract claims only that the outcome depends on the text alone
/// (it is named [`rfc3339_timestamp`]).
#[verifier::external_body]
pub(crate) fn parse_rfc3339(text: &str) -> (r: Option<Timestamp>)
    ensures
        r == rfc3339_timestamp(text@),
{
    match chrono::DateTime::parse_from_rfc3339(text) {
        Ok(t) => Some(
            Timestamp {
                seconds: t.timestamp(),
                nanos: t.timestamp_subsec_nanos(),
                offset_seconds: t.offset().local_minus_utc(),
            },
        ),
        Err(_) => None,
    }
}

} // verus!
