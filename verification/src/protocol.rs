//! Wire types shared by the active sender and the passive receiver.
//!
//! The recv channel carries a length-prefixed JSON `RecvHeader`, the raw
//! `zfs send` stream, and a terminal JSON `Response`. The control
//! channel is an RPC service whose replies are `GuidsReply`,
//! `ProxyReply` and `WireError`.

use vstd::prelude::*;

use crate::pattern::{compile, Pattern};
use crate::text::{decimal, decimal_string, push_str, to_owned_string};

verus! {

pub const PROTOCOL_VERSION: u32 = 1;

/// Cap on any single JSON frame (8 MiB).
pub const MAX_FRAME_LEN: usize = 8388608;

/// One reply frame. `request_id` is `None` for server-pushed events.
#[derive(Debug, Clone, PartialEq, Eq)]
pub struct ResponseFrame {
    pub request_id: Option<u64>,
    pub body: Response,
}

/// Terminal response of a recv channel.
#[derive(Debug, Clone, PartialEq, Eq)]
pub enum Response {
    /// The stream was received and finalised cleanly (`"ok"` on the wire).
    Success,
    Error { code: ErrorCode, message: String },
}

#[derive(Debug, Clone, Copy, PartialEq, Eq)]
pub enum ErrorCode {
    /// Malformed request or unknown identifier.
    BadRequest,
    /// Refused by the receiver's access list.
    Unauthorized,
    /// The ZFS operation failed.
    Zfs,
    /// The referenced dataset or snapshot does not exist.
    NotFound,
    /// I/O or serialisation failure inside the handler.
    Internal,
}

/// One log event on the events channel.
#[derive(Debug, Clone, PartialEq, Eq)]
pub struct EventWire {
    pub id: u64,
    /// Unix seconds.
    pub timestamp: i64,
    pub level: String,
    pub job_name: Option<String>,
    pub message: String,
}

/// First frame of a recv channel.
#[derive(Debug, Clone, PartialEq, Eq)]
pub struct RecvHeader {
    pub version: u32,
    pub target_dataset: String,
    pub send: SendHeader,
}

/// What the sender is about to stream.
#[derive(Debug, Clone, PartialEq, Eq)]
pub struct SendHeader {
    pub send_kind: SendKind,
    pub from_snap: Option<SnapshotRef>,
    pub to_snap: SnapshotRef,
    pub flags: SendFlagsWire,
    /// Tell the receiver to drop stale partial-receive state first.
    pub discard_partial_recv: bool,
}

#[derive(Debug, Clone, Copy, PartialEq, Eq)]
pub enum SendKind {
    Full,
    Incremental,
    /// `zfs send -t <token>`: continues a partial receive.
    Resume,
}

/// A snapshot (or bookmark) by leaf name and GUID.
#[derive(Debug, Clone, PartialEq, Eq)]
pub struct SnapshotRef {
    pub name: String,
    /// ZFS GUIDs routinely exceed `i64::MAX`.
    pub guid: u64,
}

#[derive(Debug, Clone, Copy, PartialEq, Eq)]
pub struct SendFlagsWire {
    pub raw: bool,
    pub embedded: bool,
    pub compressed: bool,
    pub large_blocks: bool,
}

/// A snapshot as listed on either side: leaf name, GUID, creation txg.
#[derive(Debug, Clone, PartialEq, Eq)]
pub struct SnapshotEntry {
    pub name: String,
    pub guid: u64,
    pub createtxg: u64,
}

/// Application-level failure inside a successful RPC exchange.
#[derive(Debug, Clone, PartialEq, Eq)]
pub struct WireError {
    pub code: ErrorCode,
    pub message: String,
}

impl WireError {
    pub fn new(code: ErrorCode, message: String) -> (r: Self)
        ensures
            r.code == code,
            r.message == message,
    {
        WireError { code, message }
    }
}

/// Reply to `list_receiver_guids`: what the planner intersects on.
#[derive(Debug, Clone, PartialEq, Eq)]
pub struct GuidsReply {
    pub guids: Vec<u64>,
    pub receive_resume_token: Option<String>,
    /// Whether the target dataset exists at all.
    pub exists: bool,
}

/// Reply to `proxy`: the receiver daemon's HTTP status and body.
#[derive(Debug, Clone, PartialEq, Eq)]
pub struct ProxyReply {
    pub status: u16,
    pub body: String,
}

/// The control channel's service: what a receiver answers over it. The
/// replication core (`list_receiver_guids`, `discard_partial_recv`)
/// works without a daemon on the receiver; `log_cursor` doubles as the
/// liveness probe; `proxy` reaches the receiver's own daemon API.
pub trait ArcternControl {
    /// The receiver's snapshot GUIDs under `dataset` (optionally
    /// name-filtered) and its receive resume token.
    fn list_receiver_guids(&self, dataset: String, prefix_regex: Option<String>) -> Result<GuidsReply, WireError>;

    /// `zfs recv -A` on `dataset`: drops stale partial-receive state.
    fn discard_partial_recv(&self, dataset: String) -> Result<(), WireError>;

    /// The receiver's event-log cursor.
    fn log_cursor(&self) -> u64;

    /// Passes a request through to the receiver daemon's HTTP API.
    fn proxy(&self, method: String, path: String, body: Option<String>) -> Result<ProxyReply, WireError>;
}

/// Why a frame could not be written or read.
#[derive(Debug, Clone, PartialEq, Eq)]
pub enum ProtocolError {
    /// The stream failed; the I/O error's text.
    Io(String),
    /// A frame body is not the JSON expected; the parser's text.
    Json(String),
    FrameTooLarge { len: usize, limit: usize },
    UnsupportedVersion(u32),
    /// The stream closed inside a frame's length prefix.
    UnexpectedEof,
}

/// The text of a `ProtocolError`.
pub open spec fn protocol_error_text(e: ProtocolError) -> Seq<char> {
    match e {
        ProtocolError::Io(m) => "io: "@ + m@,
        ProtocolError::Json(m) => "json: "@ + m@,
        ProtocolError::FrameTooLarge { len, limit } => "frame length "@ + decimal(len as nat)
            + " exceeds limit "@ + decimal(limit as nat),
        ProtocolError::UnsupportedVersion(v) => "unsupported protocol version: "@ + decimal(v as nat),
        ProtocolError::UnexpectedEof => "unexpected eof while reading frame"@,
    }
}

impl ProtocolError {
    /// The error's message.
    pub fn to_string(&self) -> (r: String)
        ensures
            r@ == protocol_error_text(*self),
    {
        match self {
            ProtocolError::Io(m) => {
                let mut r = to_owned_string("io: ");
                push_str(&mut r, m.as_str());
                r
            },
            ProtocolError::Json(m) => {
                let mut r = to_owned_string("json: ");
                push_str(&mut r, m.as_str());
                r
            },
            ProtocolError::FrameTooLarge { len, limit } => {
                let mut r = to_owned_string("frame length ");
                let a = decimal_string(*len as u64);
                push_str(&mut r, a.as_str());
                push_str(&mut r, " exceeds limit ");
                let b = decimal_string(*limit as u64);
                push_str(&mut r, b.as_str());
                r
            },
            ProtocolError::UnsupportedVersion(v) => {
                let mut r = to_owned_string("unsupported protocol version: ");
                let a = decimal_string(*v as u64);
                push_str(&mut r, a.as_str());
                r
            },
            ProtocolError::UnexpectedEof => to_owned_string("unexpected eof while reading frame"),
        }
    }
}

/// `n` as four big-endian bytes (`u32::to_be_bytes`).
pub open spec fn be_u32_bytes(n: nat) -> Seq<u8> {
    seq![
        ((n / 0x1000000) % 0x100) as u8,
        ((n / 0x10000) % 0x100) as u8,
        ((n / 0x100) % 0x100) as u8,
        (n % 0x100) as u8,
    ]
}

/// The number four big-endian bytes stand for (`u32::from_be_bytes`).
pub open spec fn be_u32_value(p: Seq<u8>) -> nat {
    (p[0] * 0x1000000 + p[1] * 0x10000 + p[2] * 0x100 + p[3]) as nat
}

/// A frame on the wire: the body's length as four big-endian bytes,
/// then the body.
pub open spec fn frame_of(body: Seq<u8>) -> Seq<u8> {
    be_u32_bytes(body.len()) + body
}

/// What a frame's length prefix announces, read from the bytes that
/// arrived before the stream ended (`got`, when fewer than four).
pub open spec fn frame_length_of(got: Seq<u8>) -> Result<usize, ProtocolError> {
    if got.len() < 4 {
        Err(ProtocolError::UnexpectedEof)
    } else if be_u32_value(got.take(4)) > MAX_FRAME_LEN {
        Err(ProtocolError::FrameTooLarge { len: be_u32_value(got.take(4)) as usize, limit: MAX_FRAME_LEN })
    } else {
        Ok(be_u32_value(got.take(4)) as usize)
    }
}

/// Frames `body` for the wire; a body over `MAX_FRAME_LEN` is refused
/// with its length.
pub fn encode_frame(body: &[u8]) -> (r: Result<Vec<u8>, ProtocolError>)
    ensures
        body@.len() > MAX_FRAME_LEN ==> r == Err::<Vec<u8>, ProtocolError>(
            ProtocolError::FrameTooLarge { len: body@.len() as usize, limit: MAX_FRAME_LEN },
        ),
        body@.len() <= MAX_FRAME_LEN ==> (r matches Ok(v) && v@ == frame_of(body@)),
{
    if body.len() > MAX_FRAME_LEN {
        return Err(ProtocolError::FrameTooLarge { len: body.len(), limit: MAX_FRAME_LEN });
    }
    let n: u32 = body.len() as u32;
    let mut out: Vec<u8> = Vec::new();
    out.push((n / 16777216) as u8);
    out.push(((n / 65536) % 256) as u8);
    out.push(((n / 256) % 256) as u8);
    out.push((n % 256) as u8);
    proof {
        assert(n / 16777216 < 256) by (nonlinear_arith)
            requires n <= 8388608u32;
        assert(out@ =~= be_u32_bytes(body@.len()));
    }
    let mut i: usize = 0;
    while i < body.len()
        invariant
            i <= body@.len(),
            out@ == be_u32_bytes(body@.len()) + body@.take(i as int),
        decreases body@.len() - i,
    {
        out.push(body[i]);
        assert(body@.take(i + 1) =~= body@.take(i as int).push(body@[i as int]));
        i += 1;
    }
    assert(body@.take(body@.len() as int) =~= body@);
    Ok(out)
}

/// Reads a frame's length prefix: `got` is what arrived, four bytes or
/// fewer when the stream ended. A short prefix is `UnexpectedEof`; a
/// length over `MAX_FRAME_LEN` is refused before any body is read.
pub fn frame_length(got: &[u8]) -> (r: Result<usize, ProtocolError>)
    ensures
        r == frame_length_of(got@),
{
    if got.len() < 4 {
        return Err(ProtocolError::UnexpectedEof);
    }
    let v: u64 = got[0] as u64 * 16777216 + got[1] as u64 * 65536 + got[2] as u64 * 256 + got[3] as u64;
    proof {
        assert(v == be_u32_value(got@.take(4)));
    }
    if v > MAX_FRAME_LEN as u64 {
        Err(ProtocolError::FrameTooLarge { len: v as usize, limit: MAX_FRAME_LEN })
    } else {
        Ok(v as usize)
    }
}

/// Accepts a received header of this protocol version; any other
/// version is refused by number.
pub fn check_header(h: RecvHeader) -> (r: Result<RecvHeader, ProtocolError>)
    ensures
        h.version == PROTOCOL_VERSION ==> r == Ok::<RecvHeader, ProtocolError>(h),
        h.version != PROTOCOL_VERSION ==> r == Err::<RecvHeader, ProtocolError>(
            ProtocolError::UnsupportedVersion(h.version),
        ),
{
    if h.version != PROTOCOL_VERSION {
        return Err(ProtocolError::UnsupportedVersion(h.version));
    }
    Ok(h)
}

/// A frame's prefix announces its body's length: reading the prefix of
/// any framed body that fits gives that length back, and the body
/// follows it unchanged.
pub proof fn lemma_frame_round_trip(body: Seq<u8>)
    requires
        body.len() <= MAX_FRAME_LEN,
    ensures
        frame_length_of(frame_of(body)) == Ok::<usize, ProtocolError>(body.len() as usize),
        frame_of(body).skip(4) == body,
{
    let n = body.len();
    let f = frame_of(body);
    assert(f.take(4) =~= be_u32_bytes(n));
    let b0 = (n / 0x1000000) % 0x100;
    let b1 = (n / 0x10000) % 0x100;
    let b2 = (n / 0x100) % 0x100;
    let b3 = n % 0x100;
    assert(b0 * 0x1000000 + b1 * 0x10000 + b2 * 0x100 + b3 == n) by (nonlinear_arith)
        requires
            n <= 8388608,
            b0 == (n / 0x1000000) % 0x100,
            b1 == (n / 0x10000) % 0x100,
            b2 == (n / 0x100) % 0x100,
            b3 == n % 0x100,
    ;
    assert(be_u32_value(f.take(4)) == n);
    assert(f.skip(4) =~= body);
}

/// Compiles an optional snapshot-name pattern; `None` stays `None`.
pub fn compile_prefix_regex(s: Option<&str>) -> (r: Result<Option<Pattern>, regex::Error>)
    ensures
        match s {
            None => r matches Ok(None),
            Some(p) => match r {
                Ok(Some(c)) => c.source() == p@ && crate::pattern::regex_compiles(p@),
                Ok(None) => false,
                Err(_) => !crate::pattern::regex_compiles(p@),
            },
        },
{
    match s {
        None => Ok(None),
        Some(p) => match compile(p) {
            Ok(c) => Ok(Some(c)),
            Err(e) => Err(e.source),
        },
    }
}

} // verus!
