//! Encoding of how a supervised process ended.
//!
//! Two encodings exist for two audiences: the code stored in a finish event keeps the three
//! outcome classes apart, while the status a supervisor returns to its own caller follows the
//! shell's convention.

use vstd::prelude::*;

verus! {

/// Code stored for a process that never started.
pub const FAILED_TO_START: i32 = 512;

/// The largest signal number whose stored code stays clear of the other classes.
pub const MAX_SIGNAL: i32 = 255;

/// How a supervised process ended.
#[derive(Clone, Copy, Debug, PartialEq, Eq, Structural)]
pub enum Outcome {
    /// It exited normally with this code.
    Exited(i32),
    /// It was terminated by this signal.
    Signaled(i32),
    /// It could not be started at all.
    FailedToStart,
}

/// Whether an outcome lies in the range that the stored encoding keeps apart.
pub open spec fn encodable(o: Outcome) -> bool {
    match o {
        Outcome::Exited(c) => 0 <= c <= 255,
        Outcome::Signaled(s) => 1 <= s <= MAX_SIGNAL,
        Outcome::FailedToStart => true,
    }
}

/// The code stored for an outcome.
pub open spec fn log_code_spec(o: Outcome) -> int {
    match o {
        Outcome::Exited(c) => c as int,
        Outcome::Signaled(s) => 256 + s,
        Outcome::FailedToStart => FAILED_TO_START as int,
    }
}

/// The status returned to the supervisor's caller for an outcome.
pub open spec fn exit_status_spec(o: Outcome) -> int {
    match o {
        Outcome::Exited(c) => c as int,
        Outcome::Signaled(s) => 128 + s,
        Outcome::FailedToStart => -1,
    }
}

impl Outcome {
    /// The code to store in a finish event: an exit code as it is, a signal `s` as `256 + s`,
    /// and a failure to start as `512`.
    pub fn log_code(&self) -> (r: i32)
        requires
            *self matches Outcome::Signaled(s) ==> 0 <= s <= i32::MAX - 256,
        ensures
            r as int == log_code_spec(*self),
    {
        match *self {
            Outcome::Exited(c) => c,
            Outcome::Signaled(s) => 256 + s,
            Outcome::FailedToStart => FAILED_TO_START,
        }
    }

    /// The status to return to the caller: an exit code as it is, a signal `s` as `128 + s`,
    /// and a failure to start as `-1`.
    pub fn exit_status(&self) -> (r: i32)
        requires
            *self matches Outcome::Signaled(s) ==> 0 <= s <= i32::MAX - 128,
        ensures
            r as int == exit_status_spec(*self),
    {
        match *self {
            Outcome::Exited(c) => c,
            Outcome::Signaled(s) => 128 + s,
            Outcome::FailedToStart => -1,
        }
    }

    /// Reads back a stored code: `0..=255` is an exit code, `257..=511` a signal, `512` a
    /// failure to start; any other code is not one that this encoding writes.
    pub fn from_log_code(code: i32) -> (r: Option<Outcome>)
        ensures
            r matches Some(o) ==> encodable(o) && log_code_spec(o) == code as int,
            r is None ==> forall|o: Outcome| encodable(o) ==> log_code_spec(o) != code as int,
    {
        if 0 <= code && code <= 255 {
            Some(Outcome::Exited(code))
        } else if 257 <= code && code <= 256 + MAX_SIGNAL {
            Some(Outcome::Signaled(code - 256))
        } else if code == FAILED_TO_START {
            Some(Outcome::FailedToStart)
        } else {
            None
        }
    }
}

/// The stored code keeps the outcome classes apart: two encodable outcomes with the same
/// stored code are the same outcome.
pub proof fn lemma_log_code_injective(a: Outcome, b: Outcome)
    requires
        encodable(a),
        encodable(b),
        log_code_spec(a) == log_code_spec(b),
    ensures
        a == b,
{
}

} // verus!
