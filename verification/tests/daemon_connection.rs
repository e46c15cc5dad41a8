use crawlds::daemon::connection::{connection_step, ConnAction, ConnInput, INVALID_REQUEST};

#[test]
fn blank_lines_are_skipped() {
    assert_eq!(connection_step(false, &ConnInput::Line("  \t\n".to_string())), (false, ConnAction::Skip));
    assert_eq!(connection_step(true, &ConnInput::Line(String::new())), (true, ConnAction::Skip));
}

#[test]
fn other_lines_are_parsed() {
    let line = ConnInput::Line("{\"jsonrpc\":\"2.0\",\"method\":\"Ping\",\"id\":1}\n".to_string());
    assert_eq!(connection_step(false, &line), (false, ConnAction::Parse));
}

#[test]
fn unparsable_lines_get_invalid_request() {
    assert_eq!(
        connection_step(false, &ConnInput::Unparsable),
        (false, ConnAction::ReplyError { code: INVALID_REQUEST })
    );
    assert_eq!(INVALID_REQUEST, -32600);
}

#[test]
fn subscribe_switches_to_events() {
    let sub = ConnInput::Request { method: "Subscribe".to_string() };
    assert_eq!(connection_step(false, &sub), (true, ConnAction::ReplySubscribed));
    assert_eq!(connection_step(false, &ConnInput::Event), (false, ConnAction::Skip));
    assert_eq!(connection_step(true, &ConnInput::Event), (true, ConnAction::ForwardEvent));
}

#[test]
fn other_requests_are_executed() {
    let ping = ConnInput::Request { method: "Ping".to_string() };
    assert_eq!(connection_step(true, &ping), (true, ConnAction::Execute));
    let near = ConnInput::Request { method: "subscribe".to_string() };
    assert_eq!(connection_step(false, &near), (false, ConnAction::Execute));
    assert_eq!(connection_step(true, &ConnInput::Closed), (true, ConnAction::Close));
}
