use vstd::prelude::*;

verus! {

/// Why the configuration of a run was turned down.
#[derive(Clone, Copy, Debug, PartialEq, Eq, Structural)]
pub enum ConfigError {
    /// The address is not six colon-separated pairs of hexadecimal digits.
    MalformedMacAddress,
    /// The text is not a timestamp with an explicit offset.
    InvalidTimestamp,
    /// The timestamp lies before the epoch, or so late that its last
    /// microsecond does not fit in 64 bits.
    TimestampOutOfRange,
    /// The window ends before it starts.
    WindowReversed,
}

} // verus!
