//! The stages of an orderly daemon shutdown, named for the message that
//! reports which one overran the deadline.

use vstd::prelude::*;

verus! {

/// Servers and jobs stop together, so they share one stage: while it is
/// current, either could be what holds things up.
pub const SHUTDOWN_STAGE_SERVERS_AND_JOBS: u8 = 0;
pub const SHUTDOWN_STAGE_PEERS: u8 = 1;
pub const SHUTDOWN_STAGE_ARC: u8 = 2;
pub const SHUTDOWN_STAGE_RETENTION: u8 = 3;
pub const SHUTDOWN_STAGE_SOCKET: u8 = 4;
pub const SHUTDOWN_STAGE_COMPLETE: u8 = 5;

/// What each stage is called; `unknown` past the last one.
pub open spec fn stage_name(stage: u8) -> Seq<char> {
    if stage == SHUTDOWN_STAGE_SERVERS_AND_JOBS {
        "server drain and job shutdown"@
    } else if stage == SHUTDOWN_STAGE_PEERS {
        "peer reconnect shutdown"@
    } else if stage == SHUTDOWN_STAGE_ARC {
        "ARC sweeper shutdown"@
    } else if stage == SHUTDOWN_STAGE_RETENTION {
        "retention sweeper shutdown"@
    } else if stage == SHUTDOWN_STAGE_SOCKET {
        "UNIX socket cleanup"@
    } else if stage == SHUTDOWN_STAGE_COMPLETE {
        "complete"@
    } else {
        "unknown"@
    }
}

/// The name of shutdown stage `stage`.
pub fn shutdown_stage_name(stage: u8) -> (r: &'static str)
    ensures
        r@ == stage_name(stage),
{
    if stage == SHUTDOWN_STAGE_SERVERS_AND_JOBS {
        "server drain and job shutdown"
    } else if stage == SHUTDOWN_STAGE_PEERS {
        "peer reconnect shutdown"
    } else if stage == SHUTDOWN_STAGE_ARC {
        "ARC sweeper shutdown"
    } else if stage == SHUTDOWN_STAGE_RETENTION {
        "retention sweeper shutdown"
    } else if stage == SHUTDOWN_STAGE_SOCKET {
        "UNIX socket cleanup"
    } else if stage == SHUTDOWN_STAGE_COMPLETE {
        "complete"
    } else {
        "unknown"
    }
}

} // verus!
