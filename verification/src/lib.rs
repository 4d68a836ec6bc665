//! Driver core for the PM1 differential-steering chassis: the AutoCAN frame
//! codec, the wheel-pair joiner, the query pacemaker and the control policy.
//!
//! The library holds no clock and touches no serial line. The caller hands it
//! the bytes it has read and the time at which it read them, in nanoseconds
//! on a monotonic clock, and sends the bytes that it gets back.

pub mod autocan;
pub mod clock;
pub mod differential;
pub mod pm1;
