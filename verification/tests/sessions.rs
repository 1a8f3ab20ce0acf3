use ddc_core::input::MonitorInput;
use ddc_core::registry::{MonitorReport, Registry};
use ddc_core::session::{MonitorSession, SessionError};

#[test]
fn open_builds_session_from_valid_string() {
    let sess = MonitorSession::open(7, b"(model(FOO)vcp(60(0F 11)))").unwrap();
    assert_eq!(sess.handle, 7);
    assert_eq!(sess.capabilities.model_name, Some(b"FOO".to_vec()));
    assert_eq!(
        sess.available_inputs,
        vec![MonitorInput::DisplayPort1, MonitorInput::HDMI1]
    );
}

#[test]
fn open_empty_string_fails() {
    assert_eq!(
        MonitorSession::open(1, b"").unwrap_err().kind,
        SessionError::EmptyCapabilities
    );
    assert_eq!(
        MonitorSession::open(1, b"  ").unwrap_err().kind,
        SessionError::EmptyCapabilities
    );
}

#[test]
fn open_malformed_string_always_fails() {
    let bad: [&[u8]; 5] = [b"(((", b"(vcp(60)", b"garbage", b"(model(A))", b"(vcp(60)))"];
    for raw in bad {
        let e = MonitorSession::open(1, raw).unwrap_err();
        assert_eq!(e.kind, SessionError::ParseFailed);
    }
}

#[test]
fn open_without_input_feature_fails_with_no_inputs() {
    assert_eq!(
        MonitorSession::open(1, b"(vcp(10 12))").unwrap_err().kind,
        SessionError::NoInputs
    );
}

#[test]
fn set_input_request_resolves_supported_input() {
    let sess = MonitorSession::open(3, b"(vcp(60(01 11)))").unwrap();
    let req = sess.set_input_request(MonitorInput::HDMI1).unwrap();
    assert_eq!(req.handle, 3);
    assert_eq!(req.code, 0x60);
    assert_eq!(req.value, 17);
}

#[test]
fn set_input_request_rejects_absent_input() {
    let sess = MonitorSession::open(3, b"(vcp(60(01 11)))").unwrap();
    let e = sess.set_input_request(MonitorInput::HDMI2).unwrap_err();
    assert_eq!(e.kind, SessionError::UnsupportedInput);
}

#[test]
fn set_input_request_rejects_unresolvable_input() {
    // `Unknown` can be among the available inputs but names no single value.
    let sess = MonitorSession::open(3, b"(vcp(60(1F)))").unwrap();
    assert_eq!(sess.available_inputs, vec![MonitorInput::Unknown]);
    let e = sess.set_input_request(MonitorInput::Unknown).unwrap_err();
    assert_eq!(e.kind, SessionError::UnsupportedInput);
}

#[test]
fn set_input_outcome_reports_transport_failure() {
    assert!(MonitorSession::set_input_outcome(true).is_ok());
    assert_eq!(
        MonitorSession::set_input_outcome(false).unwrap_err().kind,
        SessionError::TransportFailed
    );
}

#[test]
fn discover_keeps_only_monitors_that_open() {
    let reports = vec![
        MonitorReport { handle: 1, raw: b"(vcp(60(01 02)))".to_vec() },
        MonitorReport { handle: 2, raw: b"".to_vec() },
        MonitorReport { handle: 3, raw: b"(vcp(60(0F".to_vec() },
        MonitorReport { handle: 4, raw: b"(vcp(10))".to_vec() },
        MonitorReport { handle: 5, raw: b"(model(X)vcp(60(11 12)))".to_vec() },
    ];
    let reg = Registry::discover(&reports);
    assert_eq!(reg.sessions.len(), 2);
    assert_eq!(reg.sessions[0].handle, 1);
    assert_eq!(reg.sessions[1].handle, 5);
    assert_eq!(
        reg.sessions[1].available_inputs,
        vec![MonitorInput::HDMI1, MonitorInput::HDMI2]
    );
}

#[test]
fn discover_of_nothing_is_empty() {
    let reg = Registry::discover(&Vec::new());
    assert_eq!(reg.sessions.len(), 0);
}
