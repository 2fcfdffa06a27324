use arctern::plan::CompiledFilter;
use arctern::protocol::{
    check_header, compile_prefix_regex, encode_frame, frame_length, ErrorCode, ProtocolError, RecvHeader, SendFlagsWire,
    SendHeader, SendKind, SnapshotRef, WireError, MAX_FRAME_LEN, PROTOCOL_VERSION,
};
use arctern::schema::SnapshotFilterConfig;

#[test]
fn wire_errors_keep_code_and_message() {
    let w = WireError::new(ErrorCode::BadRequest, "bad".into());
    assert_eq!(w.code, ErrorCode::BadRequest);
    assert_eq!(w.message, "bad");
    assert_ne!(SendKind::Full, SendKind::Resume);
}

#[test]
fn a_prefix_regex_compiles_or_reports() {
    assert!(compile_prefix_regex(None).unwrap().is_none());
    assert!(compile_prefix_regex(Some("^zrepl_")).unwrap().is_some());
    assert!(compile_prefix_regex(Some("(")).is_err());
}

#[test]
fn a_regex_filter_matches_names() {
    let f = CompiledFilter::from_config(&SnapshotFilterConfig { prefix: None, regex: Some("^(zrepl|auto)_".into()) })
        .unwrap();
    assert!(f.matches("auto_1"));
    assert!(!f.matches("x_auto_1"));
    assert!(CompiledFilter::from_config(&SnapshotFilterConfig::default()).unwrap().matches("anything"));
    assert!(CompiledFilter::from_config(&SnapshotFilterConfig { prefix: None, regex: Some("(".into()) }).is_err());
}

fn header(version: u32, target: &str) -> RecvHeader {
    RecvHeader {
        version,
        target_dataset: target.into(),
        send: SendHeader {
            send_kind: SendKind::Full,
            from_snap: None,
            to_snap: SnapshotRef { name: "tank/data@s1".into(), guid: 11587258101628135412 },
            flags: SendFlagsWire { raw: true, embedded: true, compressed: true, large_blocks: true },
            discard_partial_recv: false,
        },
    }
}

#[test]
fn recv_header_unsupported_version_rejected() {
    let err = check_header(header(99, "tank/x")).unwrap_err();
    assert!(matches!(err, ProtocolError::UnsupportedVersion(99)));
    assert_eq!(err.to_string(), "unsupported protocol version: 99");
}

#[test]
fn a_current_header_is_accepted_unchanged() {
    let h = header(PROTOCOL_VERSION, "tank/backups/laptop/data");
    assert_eq!(check_header(h.clone()).unwrap(), h);
}

#[test]
fn frame_too_large_rejected() {
    let oversize = (MAX_FRAME_LEN as u32 + 1).to_be_bytes();
    let err = frame_length(&oversize).unwrap_err();
    assert!(matches!(err, ProtocolError::FrameTooLarge { .. }));
    assert_eq!(err, ProtocolError::FrameTooLarge { len: MAX_FRAME_LEN + 1, limit: MAX_FRAME_LEN });
    assert_eq!(err.to_string(), "frame length 8388609 exceeds limit 8388608");
}

#[test]
fn an_oversized_body_is_refused_before_it_is_written() {
    let body = vec![7u8; MAX_FRAME_LEN + 1];
    assert_eq!(
        encode_frame(&body).unwrap_err(),
        ProtocolError::FrameTooLarge { len: MAX_FRAME_LEN + 1, limit: MAX_FRAME_LEN }
    );
    assert!(encode_frame(&body[..MAX_FRAME_LEN]).is_ok());
}

#[test]
fn a_frame_is_a_big_endian_length_then_the_body() {
    let body: Vec<u8> = (0..300u32).map(|i| (i % 251) as u8).collect();
    let f = encode_frame(&body).unwrap();
    assert_eq!(&f[..4], &[0, 0, 1, 44]);
    assert_eq!(&f[4..], &body[..]);
    assert_eq!(frame_length(&f[..4]).unwrap(), 300);
    assert_eq!(encode_frame(b"").unwrap(), vec![0, 0, 0, 0]);
}

#[test]
fn a_prefix_cut_short_is_an_unexpected_eof() {
    assert_eq!(frame_length(&[0, 0, 1]).unwrap_err(), ProtocolError::UnexpectedEof);
    assert_eq!(frame_length(&[]).unwrap_err().to_string(), "unexpected eof while reading frame");
    assert_eq!(ProtocolError::Io("broken pipe".into()).to_string(), "io: broken pipe");
    assert_eq!(ProtocolError::Json("eof".into()).to_string(), "json: eof");
}
