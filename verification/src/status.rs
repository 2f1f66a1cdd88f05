//! Outcomes as plain numbers, for callers that cannot take a `Result`.

use vstd::prelude::*;
use crate::error::ScpiError;

verus! {

/// The number that stands for the failure of a one-call request.
pub const REQUEST_FAILED: isize = -3;

/// The number that stands for the failure of a send on a session that is
/// kept open.
pub const SEND_FAILED: isize = -1;

/// The number that stands for `outcome`, where `failure` stands for any
/// error: the byte count itself, capped at the largest `isize`. No frame is
/// longer than that, so the cap never shows.
pub open spec fn code_of(outcome: Result<usize, ScpiError>, failure: isize) -> isize {
    match outcome {
        Ok(bytes) => if bytes <= isize::MAX {
            bytes as isize
        } else {
            isize::MAX
        },
        Err(_) => failure,
    }
}

/// Turns an outcome into a number, with `failure` for any error.
fn encode(outcome: Result<usize, ScpiError>, failure: isize) -> (code: isize)
    ensures
        code == code_of(outcome, failure),
{
    match outcome {
        Ok(bytes) => {
            if bytes <= isize::MAX as usize {
                bytes as isize
            } else {
                isize::MAX
            }
        },
        Err(_) => failure,
    }
}

/// The status of a one-call request: the bytes of the frame sent last, or
/// -3 if the request failed.
pub fn status_code(outcome: Result<usize, ScpiError>) -> (code: isize)
    ensures
        code == code_of(outcome, REQUEST_FAILED),
        outcome is Err <==> code == -3,
{
    encode(outcome, REQUEST_FAILED)
}

/// The status of a send on a session that is kept open: the bytes of the
/// frame sent, or -1 if the send failed.
pub fn session_status_code(outcome: Result<usize, ScpiError>) -> (code: isize)
    ensures
        code == code_of(outcome, SEND_FAILED),
        outcome is Err <==> code == -1,
{
    encode(outcome, SEND_FAILED)
}

} // verus!
