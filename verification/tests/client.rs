use romp::client::{do_connect, ends_session, error_reply, first_reply, PROTO_VERS, SERVER_STR};
use romp::stomp::parse::ParseError;
use romp::stomp::{Frame, StompCommand};

fn connect_frame(pairs: &[(&str, &str)]) -> Frame {
    let mut f = Frame::from_command(StompCommand::Stomp);
    for (k, v) in pairs.iter() {
        f.header.set(k, v);
    }
    f
}

fn assert_error(f: &Frame, message: &str) {
    assert_eq!(f.command, StompCommand::Error);
    assert_eq!(f.body, message);
    assert_eq!(f.header.store, vec![("content-length".to_string(), message.len().to_string())]);
}

#[test]
fn connect_accepted() {
    let r = do_connect(&connect_frame(&[("accept-version", "1.2"), ("host", "h")]));
    assert_eq!(r.command, StompCommand::Connected);
    assert_eq!(
        r.header.store,
        vec![("version".to_string(), "1.2".to_string()), ("server".to_string(), SERVER_STR.to_string())]
    );
    assert_eq!(r.body, "");
    assert_eq!(PROTO_VERS, "1.2");
}

#[test]
fn connect_wrong_command() {
    let mut f = connect_frame(&[("accept-version", "1.2"), ("host", "h")]);
    f.command = StompCommand::Send;
    assert_error(&do_connect(&f), "Invalid command; expected STOMP or CONNECT.");
}

#[test]
fn connect_missing_version() {
    let r = do_connect(&connect_frame(&[("host", "h")]));
    assert_error(&r, "Invalid frame; expected 'accept-version' header.");
}

#[test]
fn connect_missing_host() {
    let r = do_connect(&connect_frame(&[("accept-version", "1.2")]));
    assert_error(&r, "Invalid frame; expected 'host' header.");
}

#[test]
fn connect_wrong_version() {
    let r = do_connect(&connect_frame(&[("accept-version", "1.1"), ("host", "h")]));
    assert_error(&r, "Invalid protocol version.");
    // only the first accept-version counts
    let r = do_connect(&connect_frame(&[("accept-version", "1.0"), ("accept-version", "1.2"), ("host", "h")]));
    assert_error(&r, "Invalid protocol version.");
    let r = do_connect(&connect_frame(&[("host", "h"), ("accept-version", "1.2"), ("accept-version", "1.0")]));
    assert_eq!(r.command, StompCommand::Connected);
}

#[test]
fn error_replies() {
    let r = error_reply(ParseError::MalformedHeader);
    assert_error(&r, "Failed to parse header.");
    assert!(ends_session(&r));
    let r = error_reply(ParseError::BodyNotAllowed);
    assert_error(&r, "This type of frame may not have a body.");
}

#[test]
fn first_reply_to_good_and_bad_frames() {
    let ok: Result<Frame, ParseError> = Ok(connect_frame(&[("accept-version", "1.2"), ("host", "h")]));
    let (r, close) = first_reply(&ok);
    assert_eq!(r.command, StompCommand::Connected);
    assert!(!close);
    // a rejected connect is answered with ERROR, which ends the session
    let bad: Result<Frame, ParseError> = Ok(connect_frame(&[("host", "h")]));
    let (r, close) = first_reply(&bad);
    assert_error(&r, "Invalid frame; expected 'accept-version' header.");
    assert!(close);
    let mut send = connect_frame(&[("accept-version", "1.2"), ("host", "h")]);
    send.command = StompCommand::Send;
    let (r, close) = first_reply(&Ok(send));
    assert_eq!(r.command, StompCommand::Error);
    assert!(close);
    let err: Result<Frame, ParseError> = Err(ParseError::InvalidCommand);
    let (r, close) = first_reply(&err);
    assert_error(&r, "Invalid command");
    assert!(close);
}

#[test]
fn sessions_end_after_errors_only() {
    assert!(ends_session(&Frame::new()));
    assert!(!ends_session(&Frame::from_command(StompCommand::Receipt)));
    assert!(!ends_session(&Frame::from_command(StompCommand::Connected)));
}
