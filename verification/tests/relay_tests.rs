use flex_ai::relay::{
    ChatRelay, RelayError, RelayEvent, RelayStep, resolve_credential, run_session,
};

fn key() -> Option<String> {
    Some("test-key".to_string())
}

#[test]
fn missing_credential_fails_before_anything_is_read() {
    let events = vec![RelayEvent::Chunk(b"data: [DONE]\n".to_vec()), RelayEvent::StreamEnd];
    let (sink, outcome) = run_session(None, events);
    assert_eq!(sink, Vec::<String>::new());
    assert_eq!(outcome, Err(RelayError::ConfigurationError));
}

#[test]
fn resolve_credential_hands_the_key_back() {
    assert_eq!(resolve_credential(key()), Ok("test-key".to_string()));
    assert_eq!(resolve_credential(None), Err(RelayError::ConfigurationError));
}

#[test]
fn transport_failure_before_any_bytes() {
    let events = vec![RelayEvent::TransportFailure("connection refused".to_string())];
    let (sink, outcome) = run_session(key(), events);
    assert_eq!(sink, Vec::<String>::new());
    assert_eq!(outcome, Err(RelayError::TransportError("connection refused".to_string())));
}

#[test]
fn premature_close_keeps_partial_output() {
    let events = vec![
        RelayEvent::Chunk(b"data: {\"choices\":[{\"delta\":{\"content\":\"A\"}}]}\n".to_vec()),
        RelayEvent::StreamEnd,
    ];
    let (sink, outcome) = run_session(key(), events);
    assert_eq!(sink, vec!["A".to_string()]);
    assert_eq!(outcome, Err(RelayError::PrematureTermination));
}

#[test]
fn successful_session_ends_with_the_marker() {
    let events = vec![
        RelayEvent::Chunk(b"data: {\"choices\":[{\"delta\":{\"content\":\"A\"}}]}\n".to_vec()),
        RelayEvent::Chunk(b"data: {\"choices\":[{\"delta\":{\"content\":\"B\"}}]}\n".to_vec()),
        RelayEvent::Chunk(b"data: [DONE]\n".to_vec()),
        RelayEvent::StreamEnd,
    ];
    let (sink, outcome) = run_session(key(), events);
    assert_eq!(sink, vec!["A".to_string(), "B".to_string(), "[DONE]".to_string()]);
    assert_eq!(outcome, Ok(()));
}

#[test]
fn failure_after_fragments_keeps_them() {
    let events = vec![
        RelayEvent::Chunk(b"data: {\"choices\":[{\"delta\":{\"content\":\"A\"}}]}\n".to_vec()),
        RelayEvent::TransportFailure("reset by peer".to_string()),
    ];
    let (sink, outcome) = run_session(key(), events);
    assert_eq!(sink, vec!["A".to_string()]);
    assert_eq!(outcome, Err(RelayError::TransportError("reset by peer".to_string())));
}

#[test]
fn on_event_steps_through_a_stream() {
    let mut relay = ChatRelay::new();
    let step = relay.on_event(RelayEvent::Chunk(
        b"data: {\"choices\":[{\"delta\":{\"content\":\"hi\"}}]}\n".to_vec(),
    ));
    match step {
        RelayStep::Continue(out) => assert_eq!(out, vec!["hi".to_string()]),
        _ => panic!("expected the relay to continue"),
    }
    let step = relay.on_event(RelayEvent::Chunk(b"data: [DONE]\n".to_vec()));
    match step {
        RelayStep::Finished(out) => assert_eq!(out, vec!["[DONE]".to_string()]),
        _ => panic!("expected the relay to finish"),
    }
}

#[test]
fn stream_end_with_buffered_terminal_line_succeeds() {
    let events = vec![
        RelayEvent::Chunk(b"data: [DONE]".to_vec()),
        RelayEvent::StreamEnd,
    ];
    let (sink, outcome) = run_session(key(), events);
    assert_eq!(sink, vec!["[DONE]".to_string()]);
    assert_eq!(outcome, Ok(()));
}
