use arctern::shutdown::{shutdown_stage_name, SHUTDOWN_STAGE_COMPLETE, SHUTDOWN_STAGE_PEERS};

#[test]
fn shutdown_stages_have_names() {
    assert_eq!(shutdown_stage_name(SHUTDOWN_STAGE_PEERS), "peer reconnect shutdown");
    assert_eq!(shutdown_stage_name(0), "server drain and job shutdown");
    assert_eq!(shutdown_stage_name(SHUTDOWN_STAGE_COMPLETE), "complete");
    assert_eq!(shutdown_stage_name(9), "unknown");
}
