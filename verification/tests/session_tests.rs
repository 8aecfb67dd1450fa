use gemini_client::error::{resolve_credential, GenerateError};
use gemini_client::session::Session;

#[test]
fn missing_credential_fails_before_any_transport() {
    let r = resolve_credential(None, None);
    assert_eq!(r, Err(GenerateError::MissingCredential));
}

#[test]
fn explicit_credential_wins_over_environment() {
    let r = resolve_credential(Some("arg".to_string()), Some("env".to_string()));
    assert_eq!(r, Ok("arg".to_string()));
}

#[test]
fn environment_credential_is_the_fallback() {
    let r = resolve_credential(None, Some("env".to_string()));
    assert_eq!(r, Ok("env".to_string()));
}

#[test]
fn upstream_error_status_yields_error_and_no_partial_text() {
    let mut session = Session::new();
    let need_body = session.on_status(401);
    assert!(need_body);
    session.on_error_body("API key not valid".to_string());
    let r = session.finish();
    assert_eq!(
        r,
        Err(GenerateError::Upstream { status: 401, body: "API key not valid".to_string() })
    );
}

#[test]
fn success_statuses_move_to_streaming() {
    for status in [200u16, 204, 299] {
        let mut session = Session::new();
        assert!(!session.on_status(status));
        session.on_chunk(
            "{\"candidates\":[{\"content\":{\"parts\":[{\"text\":\"hi\"}]}}]}".as_bytes(),
        );
        assert_eq!(session.finish(), Ok("hi".to_string()));
    }
}

#[test]
fn non_success_statuses_need_the_error_body() {
    for status in [100u16, 301, 400, 404, 500] {
        let mut session = Session::new();
        assert!(session.on_status(status));
    }
}

#[test]
fn connect_failure_is_a_transport_error() {
    let mut session = Session::new();
    session.on_connect_failed("connection refused".to_string());
    let r = session.finish();
    assert_eq!(
        r,
        Err(GenerateError::Transport { message: "connection refused".to_string() })
    );
}

#[test]
fn mid_stream_failure_loses_the_partial_text() {
    let mut session = Session::new();
    assert!(!session.on_status(200));
    session.on_chunk("{\"candidates\":[{\"content\":{\"parts\":[{\"text\":\"part\"}]}}]}".as_bytes());
    session.on_chunk_failed("connection reset".to_string());
    let r = session.finish();
    assert_eq!(
        r,
        Err(GenerateError::Transport { message: "connection reset".to_string() })
    );
}

#[test]
fn clean_close_without_chunks_yields_empty_text() {
    let mut session = Session::new();
    assert!(!session.on_status(200));
    assert_eq!(session.finish(), Ok(String::new()));
}

#[test]
fn chunk_problems_are_absorbed_mid_session() {
    let mut session = Session::new();
    assert!(!session.on_status(200));
    session.on_chunk("[".as_bytes());
    session.on_chunk(&[0xc0, 0xaf]);
    session.on_chunk("{\"candidates\":[{\"content\":{\"parts\":[{\"text\":\"ok\"}]}}]}".as_bytes());
    session.on_chunk("]".as_bytes());
    assert_eq!(session.finish(), Ok("ok".to_string()));
}

#[test]
fn error_kinds_have_stable_labels() {
    assert_eq!(GenerateError::MissingCredential.kind(), "missing credential");
    assert_eq!(
        GenerateError::Transport { message: String::new() }.kind(),
        "transport error"
    );
    assert_eq!(
        GenerateError::Upstream { status: 500, body: String::new() }.kind(),
        "upstream error"
    );
}
