use crate::calendar::{ClockReading, Timestamp, MAX_EPOCH_SECONDS};
use crate::error::ConfigError;
use vstd::prelude::*;

verus! {

/// Microseconds in one second.
pub const MICROS_PER_SECOND: u64 = 1_000_000;

/// The first microsecond of a second since the epoch.
pub open spec fn first_micro_of(epoch_seconds: int) -> int {
    epoch_seconds * MICROS_PER_SECOND
}

/// The last microsecond of a second since the epoch.
pub open spec fn last_micro_of(epoch_seconds: int) -> int {
    (epoch_seconds + 1) * MICROS_PER_SECOND - 1
}

/// An inclusive range of instants, in microseconds since the epoch.
#[derive(Clone, Copy, Debug, PartialEq, Eq, Structural)]
pub struct TimeWindow {
    pub first_micros: u64,
    pub last_micros: u64,
}

impl TimeWindow {
    /// Whether the window holds at least one instant.
    pub open spec fn wf(self) -> bool {
        self.first_micros <= self.last_micros
    }

    /// Whether the instant lies in the window, both ends included.
    pub open spec fn contains(self, micros: int) -> bool {
        self.first_micros <= micros <= self.last_micros
    }

    /// The window between two instants given in microseconds, both included.
    pub fn new(first_micros: u64, last_micros: u64) -> (r: TimeWindow)
        ensures
            r.first_micros == first_micros,
            r.last_micros == last_micros,
    {
        TimeWindow { first_micros, last_micros }
    }

    /// The window from the start of the second of `first` through the last
    /// microsecond of the second of `last`. A window whose end lies before
    /// its start is turned down.
    pub fn resolve(first: &Timestamp, last: &Timestamp) -> (r: Result<TimeWindow, ConfigError>)
        ensures
            first@.epoch_seconds <= last@.epoch_seconds ==> r is Ok && r->Ok_0.wf()
                && r->Ok_0.first_micros == first_micro_of(first@.epoch_seconds as int)
                && r->Ok_0.last_micros == last_micro_of(last@.epoch_seconds as int),
            first@.epoch_seconds == last@.epoch_seconds ==> r is Ok && r->Ok_0.last_micros
                - r->Ok_0.first_micros == 999_999,
            first@.epoch_seconds > last@.epoch_seconds ==> r == Err::<TimeWindow, ConfigError>(
                ConfigError::WindowReversed,
            ),
    {
        let start = first.epoch_seconds();
        let end = last.epoch_seconds();
        if start > end {
            return Err(ConfigError::WindowReversed);
        }
        assert(start * MICROS_PER_SECOND <= end * MICROS_PER_SECOND) by (nonlinear_arith)
            requires
                start <= end,
        ;
        Ok(
            TimeWindow {
                first_micros: start * MICROS_PER_SECOND,
                last_micros: (end + 1) * MICROS_PER_SECOND - 1,
            },
        )
    }

    /// Whether the instant lies in the window.
    pub fn includes(&self, micros: u64) -> (r: bool)
        ensures
            r == self.contains(micros as int),
    {
        self.first_micros <= micros && micros <= self.last_micros
    }
}

/// A window that starts and ends in the same second spans that whole second
/// and nothing more: its ends are 999 999 microseconds apart.
pub proof fn lemma_one_second_window(epoch_seconds: int)
    ensures
        last_micro_of(epoch_seconds) - first_micro_of(epoch_seconds) == 999_999,
{
}

/// Every reading in range can be counted in microseconds in 64 bits, from
/// the first microsecond of its second through the last.
pub proof fn lemma_micros_fit(r: ClockReading)
    requires
        r.in_range(),
    ensures
        0 <= first_micro_of(r.epoch_seconds as int) <= last_micro_of(r.epoch_seconds as int)
            <= u64::MAX,
{
}

} // verus!
