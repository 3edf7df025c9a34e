//! Instants as plain values, and their RFC 3339 text through chrono.
use chrono::DateTime;
use vstd::prelude::*;

verus! {

/// Seconds of 0000-01-01T00:00:00Z since the Unix epoch.
pub const MIN_RFC3339_SECS: i64 = -62167219200;

/// Seconds of 9999-12-31T23:59:59Z since the Unix epoch.
pub const MAX_RFC3339_SECS: i64 = 253402300799;

/// An instant: whole seconds since 1970-01-01T00:00:00Z and the nanoseconds
/// past that second.
#[derive(Clone, Copy, Debug, PartialEq, Eq, Structural)]
pub struct Timestamp {
    pub secs: i64,
    pub nanos: u32,
}

impl Timestamp {
    /// The instant lies in the years 0000 to 9999 (the years that RFC 3339
    /// can write) and is not a leap second.
    pub open spec fn encodable(self) -> bool {
        &&& MIN_RFC3339_SECS <= self.secs <= MAX_RFC3339_SECS
        &&& self.nanos < 1_000_000_000
    }

    /// Whether the instant can be written in RFC 3339.
    pub fn is_encodable(&self) -> (r: bool)
        ensures
            r == self.encodable(),
    {
        MIN_RFC3339_SECS <= self.secs && self.secs <= MAX_RFC3339_SECS && self.nanos < 1_000_000_000
    }

    /// The instant as a pair of integers.
    pub open spec fn pair(self) -> (int, int) {
        (self.secs as int, self.nanos as int)
    }

    /// Strictly earlier, in time order.
    pub open spec fn before(self, other: Timestamp) -> bool {
        self.secs < other.secs || (self.secs == other.secs && self.nanos < other.nanos)
    }
}

/// The RFC 3339 text that chrono writes for the instant `(secs, nanos)`.
pub uninterp spec fn rfc3339_of(secs: int, nanos: int) -> Seq<char>;

/// The instant `(secs, nanos)`, in UTC, that chrono reads from RFC 3339 text,
/// or `None` where the text is not RFC 3339.
pub uninterp spec fn rfc3339_instant(text: Seq<char>) -> Option<(int, int)>;

/// chrono's error for text that does not parse as a date.
#[verifier::external_type_specification]
#[verifier::external_body]
pub struct ExParseError(chrono::ParseError);

/// Relies on `DateTime::<Utc>::from_timestamp`, which is `Some` for every
/// instant of the years 0000 to 9999 with fewer than 10^9 nanoseconds, and on
/// `DateTime::to_rfc3339`, which writes only digits, `-`, `+`, `:`, `T` and
/// `.`, with a four-digit year for these years, the subsecond digits in full
/// and the offset `+00:00`, text that `DateTime::parse_from_rfc3339` reads back
/// as the same instant.
#[verifier::external_body]
pub(crate) fn rfc3339_text(t: Timestamp) -> (r: String)
    requires
        t.encodable(),
    ensures
        r@ == rfc3339_of(t.secs as int, t.nanos as int),
        forall|i: int| 0 <= i < r@.len() ==> r@[i] != '#',
        rfc3339_instant(r@) == Some(t.pair()),
{
    DateTime::from_timestamp(t.secs, t.nanos).unwrap_or_default().to_rfc3339()
}

/// Relies on `DateTime::parse_from_rfc3339`, read back as the UTC instant
/// through `timestamp` and `timestamp_subsec_nanos`.
#[verifier::external_body]
pub(crate) fn parse_rfc3339(s: &str) -> (r: Result<Timestamp, chrono::ParseError>)
    ensures
        match r {
            Ok(t) => rfc3339_instant(s@) == Some(t.pair()),
            Err(_) => rfc3339_instant(s@).is_none(),
        },
{
    DateTime::parse_from_rfc3339(s).map(
        |d| Timestamp { secs: d.timestamp(), nanos: d.timestamp_subsec_nanos() },
    )
}

} // verus!
