//! How a handler failure becomes an HTTP response: one status, one
//! category word, the message, and a `Retry-After` for an unreachable
//! peer. This table is the only place failures meet the wire.

use vstd::prelude::*;

use crate::api::ApiErrorBody;
use crate::protocol::{ErrorCode, WireError};
use crate::text::{debug_form, debug_str, push_str, to_owned_string};

verus! {

/// The kind of a failed ZFS operation, as `zfskit` classifies it.
#[derive(Debug, Clone, Copy, PartialEq, Eq)]
pub enum ZfsErrorKind {
    InvalidName,
    InvalidInput,
    Parse,
    IncompatibleOutput,
    BookmarkConflict,
    DatasetNotFound,
    DatasetExists,
    NotClone,
    AmbiguousPool,
    PermissionDenied,
    Busy,
    SnapshotHeld,
    SnapshotExists,
    KeyNotLoaded,
    PoolNotFound,
    NoSpace,
    Spawn,
    Other,
}

/// Why a control-channel request failed.
#[derive(Debug, Clone)]
pub enum RpcError {
    ChannelClosed,
    Timeout,
    /// The peer answered with a typed error.
    Server(WireError),
    Transport(String),
}

/// How an RPC failure reads (the peer's own error as `<code>: <message>`).
pub open spec fn rpc_error_text(e: RpcError) -> Seq<char> {
    match e {
        RpcError::ChannelClosed => "control channel closed"@,
        RpcError::Timeout => "control request timed out"@,
        RpcError::Server(w) => "server returned error: "@ + error_code_name(w.code) + ": "@ + w.message@,
        RpcError::Transport(m) => "transport: "@ + m@,
    }
}

/// The name an error code is written with.
pub open spec fn error_code_name(c: ErrorCode) -> Seq<char> {
    match c {
        ErrorCode::BadRequest => "BadRequest"@,
        ErrorCode::Unauthorized => "Unauthorized"@,
        ErrorCode::Zfs => "Zfs"@,
        ErrorCode::NotFound => "NotFound"@,
        ErrorCode::Internal => "Internal"@,
    }
}

fn code_name(c: ErrorCode) -> (r: &'static str)
    ensures
        r@ == error_code_name(c),
{
    match c {
        ErrorCode::BadRequest => "BadRequest",
        ErrorCode::Unauthorized => "Unauthorized",
        ErrorCode::Zfs => "Zfs",
        ErrorCode::NotFound => "NotFound",
        ErrorCode::Internal => "Internal",
    }
}

impl RpcError {
    /// The failure's text.
    pub fn to_string(&self) -> (r: String)
        ensures
            r@ == rpc_error_text(*self),
    {
        match self {
            RpcError::ChannelClosed => to_owned_string("control channel closed"),
            RpcError::Timeout => to_owned_string("control request timed out"),
            RpcError::Server(w) => {
                let mut m = to_owned_string("server returned error: ");
                push_str(&mut m, code_name(w.code));
                push_str(&mut m, ": ");
                push_str(&mut m, w.message.as_str());
                m
            },
            RpcError::Transport(t) => {
                let mut m = to_owned_string("transport: ");
                push_str(&mut m, t.as_str());
                m
            },
        }
    }
}

/// A handler failure.
#[derive(Debug, Clone)]
pub enum ApiError {
    /// A ZFS operation failed; `message` is its text.
    Zfs { kind: ZfsErrorKind, message: String },
    /// A malformed name or parameter.
    BadRequest(String),
    /// A failure outside ZFS (state database, config file, ...).
    Internal(String),
    /// No configured peer by that name.
    PeerNotFound(String),
    /// The peer's control channel is down or the request failed.
    PeerUnavailable(String),
    /// The peer answered with a typed error.
    Peer { code: ErrorCode, message: String },
}

impl ApiError {
    /// The failure an RPC error becomes: the peer's own error keeps its
    /// code; anything else means the peer is unavailable.
    pub fn from_rpc(e: RpcError) -> (r: ApiError)
        ensures
            match e {
                RpcError::Server(w) => r == (ApiError::Peer { code: w.code, message: w.message }),
                _ => r matches ApiError::PeerUnavailable(m) && m@ == "peer rpc: "@ + rpc_error_text(e),
            },
    {
        match e {
            RpcError::Server(w) => ApiError::Peer { code: w.code, message: w.message },
            other => {
                let mut m = to_owned_string("peer rpc: ");
                let t = other.to_string();
                push_str(&mut m, t.as_str());
                ApiError::PeerUnavailable(m)
            },
        }
    }
}

/// Why a request for peer `peer` cannot reach it: no configured peer
/// by that name, or one whose link is down right now.
pub fn link_refusal(peer: &str, configured: bool) -> (r: ApiError)
    ensures
        configured ==> (r matches ApiError::PeerUnavailable(m) && m@ == "peer "@ + debug_form(peer@)
            + " is not currently connected"@),
        !configured ==> (r matches ApiError::PeerNotFound(m) && m@ == "no peer named "@ + debug_form(peer@)),
{
    let q = debug_str(peer);
    if configured {
        let mut m = to_owned_string("peer ");
        push_str(&mut m, q.as_str());
        push_str(&mut m, " is not currently connected");
        ApiError::PeerUnavailable(m)
    } else {
        let mut m = to_owned_string("no peer named ");
        push_str(&mut m, q.as_str());
        ApiError::PeerNotFound(m)
    }
}

/// The status a proxied answer is relayed with: the peer daemon's own,
/// when it is a valid HTTP status code (100 to 999), else 502.
pub fn proxied_status(status: u16) -> (r: u16)
    ensures
        r == if 100 <= status <= 999 { status } else { 502 },
{
    if 100 <= status && status <= 999 {
        status
    } else {
        502
    }
}

/// The status and category a ZFS failure is answered with.
pub open spec fn zfs_status(k: ZfsErrorKind) -> (u16, Seq<char>) {
    match k {
        ZfsErrorKind::InvalidName | ZfsErrorKind::InvalidInput => (400, "invalid_input"@),
        ZfsErrorKind::Parse | ZfsErrorKind::IncompatibleOutput => (502, "incompatible_output"@),
        ZfsErrorKind::BookmarkConflict => (409, "bookmark_conflict"@),
        ZfsErrorKind::Spawn => (503, "spawn"@),
        ZfsErrorKind::DatasetNotFound => (404, "dataset_not_found"@),
        ZfsErrorKind::PoolNotFound => (404, "pool_not_found"@),
        ZfsErrorKind::PermissionDenied => (403, "permission_denied"@),
        ZfsErrorKind::Busy => (409, "busy"@),
        ZfsErrorKind::SnapshotHeld => (409, "snapshot_held"@),
        ZfsErrorKind::SnapshotExists => (409, "snapshot_exists"@),
        ZfsErrorKind::KeyNotLoaded => (403, "key_not_loaded"@),
        ZfsErrorKind::NoSpace => (507, "no_space"@),
        ZfsErrorKind::Other => (500, "other"@),
        _ => (500, "zfs"@),
    }
}

/// The status and category a peer's typed error is answered with.
pub open spec fn peer_status(c: ErrorCode) -> (u16, Seq<char>) {
    match c {
        ErrorCode::BadRequest => (400, "bad_request"@),
        ErrorCode::Unauthorized => (403, "unauthorized"@),
        ErrorCode::Zfs => (500, "zfs"@),
        ErrorCode::NotFound => (404, "not_found"@),
        ErrorCode::Internal => (500, "internal"@),
    }
}

/// The status, category and message a failure is answered with.
pub open spec fn error_answer(e: ApiError) -> (u16, Seq<char>, Seq<char>) {
    match e {
        ApiError::Zfs { kind, message } => (zfs_status(kind).0, zfs_status(kind).1, message@),
        ApiError::BadRequest(m) => (400, "bad_request"@, m@),
        ApiError::Internal(m) => (500, "internal"@, m@),
        ApiError::PeerNotFound(m) => (404, "peer_not_found"@, m@),
        ApiError::PeerUnavailable(m) => (503, "peer_unavailable"@, m@),
        ApiError::Peer { code, message } => (peer_status(code).0, peer_status(code).1, message@),
    }
}

/// An HTTP error response: status, JSON body and an optional
/// `Retry-After` value (seconds).
#[derive(Debug, Clone)]
pub struct ErrorResponse {
    pub status: u16,
    pub body: ApiErrorBody,
    pub retry_after: Option<&'static str>,
}

fn zfs_answer(k: ZfsErrorKind) -> (r: (u16, &'static str))
    ensures
        r.0 == zfs_status(k).0,
        r.1@ == zfs_status(k).1,
{
    match k {
        ZfsErrorKind::InvalidName | ZfsErrorKind::InvalidInput => (400, "invalid_input"),
        ZfsErrorKind::Parse | ZfsErrorKind::IncompatibleOutput => (502, "incompatible_output"),
        ZfsErrorKind::BookmarkConflict => (409, "bookmark_conflict"),
        ZfsErrorKind::Spawn => (503, "spawn"),
        ZfsErrorKind::DatasetNotFound => (404, "dataset_not_found"),
        ZfsErrorKind::PoolNotFound => (404, "pool_not_found"),
        ZfsErrorKind::PermissionDenied => (403, "permission_denied"),
        ZfsErrorKind::Busy => (409, "busy"),
        ZfsErrorKind::SnapshotHeld => (409, "snapshot_held"),
        ZfsErrorKind::SnapshotExists => (409, "snapshot_exists"),
        ZfsErrorKind::KeyNotLoaded => (403, "key_not_loaded"),
        ZfsErrorKind::NoSpace => (507, "no_space"),
        ZfsErrorKind::Other => (500, "other"),
        _ => (500, "zfs"),
    }
}

fn peer_answer(c: ErrorCode) -> (r: (u16, &'static str))
    ensures
        r.0 == peer_status(c).0,
        r.1@ == peer_status(c).1,
{
    match c {
        ErrorCode::BadRequest => (400, "bad_request"),
        ErrorCode::Unauthorized => (403, "unauthorized"),
        ErrorCode::Zfs => (500, "zfs"),
        ErrorCode::NotFound => (404, "not_found"),
        ErrorCode::Internal => (500, "internal"),
    }
}

impl ApiError {
    /// The response this failure is answered with. An unavailable peer
    /// also carries `Retry-After: 60`, the reconnect backoff's cap, so a
    /// polling client backs off as long as the daemon does.
    pub fn into_response(self) -> (r: ErrorResponse)
        ensures
            r.status == error_answer(self).0,
            r.body.error@ == error_answer(self).1,
            r.body.message@ == error_answer(self).2,
            match self {
                ApiError::PeerUnavailable(_) => r.retry_after matches Some(v) && v@ == "60"@,
                _ => r.retry_after is None,
            },
    {
        let retry = match &self {
            ApiError::PeerUnavailable(_) => true,
            _ => false,
        };
        let (status, category, message) = match self {
            ApiError::Zfs { kind, message } => {
                let (s, c) = zfs_answer(kind);
                (s, c, message)
            },
            ApiError::BadRequest(m) => (400, "bad_request", m),
            ApiError::Internal(m) => (500, "internal", m),
            ApiError::PeerNotFound(m) => (404, "peer_not_found", m),
            ApiError::PeerUnavailable(m) => (503, "peer_unavailable", m),
            ApiError::Peer { code, message } => {
                let (s, c) = peer_answer(code);
                (s, c, message)
            },
        };
        ErrorResponse {
            status,
            body: ApiErrorBody { error: to_owned_string(category), message },
            retry_after: if retry { Some("60") } else { None },
        }
    }
}

} // verus!
