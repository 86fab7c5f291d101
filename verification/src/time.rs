//! Wall-clock instants, kept to the microsecond.

use vstd::prelude::*;

verus! {

/// Earliest instant a [`Timestamp`] holds, in microseconds since the epoch.
pub const TIMESTAMP_MIN_MICROS: i64 = -8_334_601_228_800_000_000;

/// Latest instant a [`Timestamp`] holds, in microseconds since the epoch.
pub const TIMESTAMP_MAX_MICROS: i64 = 8_210_266_876_799_999_999;

/// An instant of wall-clock time in UTC: microseconds since the Unix epoch,
/// within the years that a calendar date can be rendered for. Its view fits 64 bits,
/// as [`lemma_timestamp_range`] states of every value, ghost ones too.
#[derive(Clone, Copy, Debug, PartialEq, Eq, PartialOrd, Ord, Hash, Structural)]
pub struct Timestamp {
    micros: i64,
}

impl View for Timestamp {
    type V = int;

    closed spec fn view(&self) -> int {
        self.micros as int
    }
}

/// An instant that a [`Timestamp`] can hold.
pub open spec fn in_calendar(micros: int) -> bool {
    TIMESTAMP_MIN_MICROS <= micros <= TIMESTAMP_MAX_MICROS
}

impl Timestamp {
    #[verifier::type_invariant]
    spec fn bounded(self) -> bool {
        in_calendar(self.micros as int)
    }

    /// The instant `micros` microseconds after the epoch, where the calendar
    /// reaches it.
    pub fn from_micros(micros: i64) -> (r: Option<Timestamp>)
        ensures
            r is Some <==> in_calendar(micros as int),
            r matches Some(t) ==> t@ == micros,
    {
        if TIMESTAMP_MIN_MICROS <= micros && micros <= TIMESTAMP_MAX_MICROS {
            Some(Timestamp { micros })
        } else {
            None
        }
    }

    /// The instant `secs` seconds after the epoch, where the calendar reaches
    /// it.
    pub fn from_secs(secs: i64) -> (r: Option<Timestamp>)
        ensures
            r is Some <==> in_calendar(secs * 1_000_000),
            r matches Some(t) ==> t@ == secs * 1_000_000,
    {
        if -8_334_601_228_800 <= secs && secs <= 8_210_266_876_799 {
            Timestamp::from_micros(secs * 1_000_000)
        } else {
            None
        }
    }

    /// Microseconds since the epoch.
    pub fn micros(self) -> (m: i64)
        ensures
            m == self@,
            in_calendar(m as int),
    {
        proof {
            use_type_invariant(&self);
        }
        self.micros
    }

    /// The instant `delta` microseconds later, where the calendar reaches it.
    pub fn plus_micros(self, delta: i64) -> (r: Option<Timestamp>)
        ensures
            r is Some <==> in_calendar(self@ + delta),
            r matches Some(t) ==> t@ == self@ + delta,
    {
        match self.micros().checked_add(delta) {
            Some(m) => Timestamp::from_micros(m),
            None => None,
        }
    }

    /// The instant in RFC 3339 form.
    pub fn to_rfc3339(self) -> (s: String)
        ensures
            s@ == rfc3339_text(self@ as i64),
    {
        chrono_rfc3339(self.micros())
    }
}

/// A timestamp is a 64-bit count of microseconds.
pub broadcast proof fn lemma_timestamp_range(t: Timestamp)
    ensures
        i64::MIN <= #[trigger] t@ <= i64::MAX,
{
}

/// What `chrono` renders for the instant `micros` microseconds after the
/// epoch, in UTC.
pub uninterp spec fn rfc3339_text(micros: i64) -> Seq<char>;

/// `chrono::DateTime::from_timestamp_micros` followed by
/// `chrono::DateTime::to_rfc3339`: within the range of chrono's calendar the
/// first yields a UTC date and the second renders it, from the microseconds
/// alone.
#[verifier::external_body]
fn chrono_rfc3339(micros: i64) -> (s: String)
    requires
        in_calendar(micros as int),
    ensures
        s@ == rfc3339_text(micros),
{
    chrono::DateTime::from_timestamp_micros(micros).expect("within the calendar").to_rfc3339()
}

} // verus!
