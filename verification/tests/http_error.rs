use arctern::http_error::{link_refusal, proxied_status, ApiError, RpcError, ZfsErrorKind};
use arctern::protocol::{ErrorCode, WireError};

#[test]
fn zfs_errors_map_to_http_statuses() {
    let r = ApiError::Zfs { kind: ZfsErrorKind::DatasetNotFound, message: "no such dataset".into() }.into_response();
    assert_eq!(r.status, 404);
    assert_eq!(r.body.error, "dataset_not_found");
    assert_eq!(r.body.message, "no such dataset");
    assert!(r.retry_after.is_none());
    let r = ApiError::Zfs { kind: ZfsErrorKind::NoSpace, message: "full".into() }.into_response();
    assert_eq!((r.status, r.body.error.as_str()), (507, "no_space"));
    let r = ApiError::Zfs { kind: ZfsErrorKind::DatasetExists, message: "x".into() }.into_response();
    assert_eq!((r.status, r.body.error.as_str()), (500, "zfs"));
}

#[test]
fn an_unavailable_peer_asks_the_client_to_retry() {
    let e = ApiError::from_rpc(RpcError::Timeout);
    let r = e.into_response();
    assert_eq!(r.status, 503);
    assert_eq!(r.body.error, "peer_unavailable");
    assert_eq!(r.body.message, "peer rpc: control request timed out");
    assert_eq!(r.retry_after, Some("60"));
}

#[test]
fn a_peer_side_error_keeps_its_code() {
    let e = ApiError::from_rpc(RpcError::Server(WireError::new(ErrorCode::NotFound, "no job".into())));
    let r = e.into_response();
    assert_eq!(r.status, 404);
    assert_eq!(r.body.error, "not_found");
    assert_eq!(r.body.message, "no job");
}

#[test]
fn rpc_errors_read_as_sentences() {
    assert_eq!(RpcError::ChannelClosed.to_string(), "control channel closed");
    assert_eq!(
        RpcError::Server(WireError::new(ErrorCode::Zfs, "boom".into())).to_string(),
        "server returned error: Zfs: boom"
    );
    assert_eq!(RpcError::Transport("eof".into()).to_string(), "transport: eof");
}

#[test]
fn bad_requests_are_400() {
    let r = ApiError::BadRequest("no".into()).into_response();
    assert_eq!((r.status, r.body.error.as_str()), (400, "bad_request"));
}

#[test]
fn a_missing_or_disconnected_peer_is_refused_by_name() {
    let r = link_refusal("mira", false).into_response();
    assert_eq!(r.status, 404);
    assert_eq!(r.body.error, "peer_not_found");
    assert_eq!(r.body.message, "no peer named \"mira\"");
    let r = link_refusal("mira", true).into_response();
    assert_eq!(r.status, 503);
    assert_eq!(r.body.message, "peer \"mira\" is not currently connected");
    assert_eq!(r.retry_after, Some("60"));
}

#[test]
fn a_proxied_status_is_relayed_when_valid() {
    assert_eq!(proxied_status(200), 200);
    assert_eq!(proxied_status(404), 404);
    assert_eq!(proxied_status(999), 999);
    assert_eq!(proxied_status(99), 502);
    assert_eq!(proxied_status(1000), 502);
    assert_eq!(proxied_status(0), 502);
}
