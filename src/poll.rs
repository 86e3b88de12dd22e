use vstd::prelude::*;

verus! {

/// What the outer loop does after one readiness wait.
#[derive(Clone, Copy, Debug, PartialEq, Eq, Structural)]
pub enum PollStep {
    /// The wait primitive failed: the I/O substrate is unusable.
    Fatal,
    /// Nothing became ready before the timeout: wait again.
    Idle,
    /// At least one endpoint is ready: run both transfer directions.
    Transfer,
}

pub open spec fn poll_step_of(status: int) -> PollStep {
    if status < 0 {
        PollStep::Fatal
    } else if status == 0 {
        PollStep::Idle
    } else {
        PollStep::Transfer
    }
}

/// Decides the next step of the loop from the status that the readiness
/// wait returned (negative: failure, zero: timeout, positive: ready).
pub fn next_step(status: i32) -> (r: PollStep)
    ensures
        r == poll_step_of(status as int),
{
    if status < 0 {
        PollStep::Fatal
    } else if status == 0 {
        PollStep::Idle
    } else {
        PollStep::Transfer
    }
}

/// Whether the returned event bits of one endpoint hold the error bit.
/// The loop reports such an endpoint and still runs both directions.
pub fn has_error(revents: i16, error_bit: i16) -> (r: bool)
    ensures
        r == (revents & error_bit == error_bit),
{
    revents & error_bit == error_bit
}

} // verus!
