use vstd::prelude::*;

verus! {

/// A point in real time, as milliseconds since the Unix epoch.
#[derive(Clone, Copy, Debug, PartialEq, Eq, Structural, PartialOrd, Ord, Hash)]
pub struct Timestamp {
    pub ms: i64,
}

impl Timestamp {
    /// The zero timestamp, which marks a message for immediate delivery.
    pub fn zero() -> (r: Timestamp)
        ensures
            r.ms == 0,
    {
        Timestamp { ms: 0 }
    }

    /// The timestamp at `ms` milliseconds since the epoch.
    pub fn from_millis(ms: i64) -> (r: Timestamp)
        ensures
            r.ms == ms,
    {
        Timestamp { ms }
    }

    /// Milliseconds since the epoch.
    pub fn millis(self) -> (r: i64)
        ensures
            r == self.ms,
    {
        self.ms
    }

    /// The current wall-clock time.
    ///
    /// Relies on `chrono::Utc::now` and `DateTime::timestamp_millis`: the time
    /// now, in milliseconds since the epoch. Nothing is promised of its value.
    #[verifier::external_body]
    pub fn now() -> (r: Timestamp) {
        Timestamp { ms: chrono::Utc::now().timestamp_millis() }
    }

    /// The time elapsed from `earlier` to `self` in milliseconds, or zero when
    /// `earlier` is later than `self`.
    pub fn saturating_since(self, earlier: Timestamp) -> (r: u64)
        ensures
            self.ms >= earlier.ms ==> r == self.ms - earlier.ms,
            self.ms < earlier.ms ==> r == 0,
    {
        if self.ms >= earlier.ms {
            ((self.ms as i128) - (earlier.ms as i128)) as u64
        } else {
            0
        }
    }

    /// This timestamp moved `delta_ms` milliseconds later, or `None` when the
    /// result leaves the representable range.
    pub fn checked_add_millis(self, delta_ms: u64) -> (r: Option<Timestamp>)
        ensures
            self.ms + delta_ms <= i64::MAX ==> r == Some(Timestamp { ms: (self.ms + delta_ms) as i64 }),
            self.ms + delta_ms > i64::MAX ==> r.is_none(),
    {
        let sum: i128 = (self.ms as i128) + (delta_ms as i128);
        if sum <= i64::MAX as i128 {
            Some(Timestamp { ms: sum as i64 })
        } else {
            None
        }
    }
}

} // verus!
