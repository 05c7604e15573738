//! The rules for starting and stopping the server, and the sentence the
//! frontend shows when it stops.

use vstd::prelude::*;
use crate::session::{StopReason, StopReasonView};

verus! {

/// Whether a server may start: not while one runs, and not without files.
pub fn check_can_start(running: bool, file_count: usize) -> (r: Result<(), String>)
    ensures
        running ==> (r matches Err(m) && m@ == "Server is already running"@),
        !running && file_count == 0 ==> (r matches Err(m) && m@ == "No files to serve"@),
        !running && file_count > 0 ==> r is Ok,
{
    if running {
        return Err(String::from_str("Server is already running"));
    }
    if file_count == 0 {
        return Err(String::from_str("No files to serve"));
    }
    Ok(())
}

/// Whether a server may be told to stop: only while one runs.
pub fn check_can_stop(running: bool) -> (r: Result<(), String>)
    ensures
        running ==> r is Ok,
        !running ==> (r matches Err(m) && m@ == "Server is not running"@),
{
    if !running {
        return Err(String::from_str("Server is not running"));
    }
    Ok(())
}

/// The sentence shown when the server has stopped for `reason`.
pub open spec fn stop_text(reason: StopReasonView) -> Seq<char> {
    match reason {
        StopReasonView::Completed(s) => s,
        StopReasonView::UserStopped => "Server stopped by user"@,
        StopReasonView::Error(e) => "Server error: "@ + e,
    }
}

/// The sentence shown when the server has stopped.
pub fn stop_summary(reason: &StopReason) -> (s: String)
    ensures
        s@ == stop_text(reason@),
{
    match reason {
        StopReason::Completed(s) => s.clone(),
        StopReason::UserStopped => String::from_str("Server stopped by user"),
        StopReason::Error(e) => {
            let mut s = String::from_str("Server error: ");
            s.append(e.as_str());
            s
        },
    }
}

} // verus!
