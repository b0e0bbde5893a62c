use romp::stomp::parse::{parse_frame, Feed, FrameParser, ParseError};
use romp::stomp::{Frame, Header, StompCommand};

const ALL: [StompCommand; 14] = [
    StompCommand::Stomp,
    StompCommand::Send,
    StompCommand::Subscribe,
    StompCommand::Unsubscribe,
    StompCommand::Ack,
    StompCommand::Nack,
    StompCommand::Begin,
    StompCommand::Commit,
    StompCommand::Abort,
    StompCommand::Disconnect,
    StompCommand::Connected,
    StompCommand::Message,
    StompCommand::Receipt,
    StompCommand::Error,
];

fn pairs(h: &Header) -> Vec<(String, String)> {
    h.store.clone()
}

fn pair(k: &str, v: &str) -> (String, String) {
    (k.to_string(), v.to_string())
}

fn parse_ok(input: &[u8]) -> (Frame, usize) {
    match parse_frame(input) {
        (Ok(f), n) => (f, n),
        (Err(e), _) => panic!("expected a frame, got {:?}", e),
    }
}

fn parse_err(input: &[u8]) -> (ParseError, usize) {
    match parse_frame(input) {
        (Ok(f), _) => panic!("expected an error, got {:?}", f),
        (Err(e), n) => (e, n),
    }
}

#[test]
fn command_names() {
    assert_eq!(StompCommand::Send.to_string(), "SEND");
    assert_eq!(StompCommand::Subscribe.to_string(), "SUBSCRIBE");
    assert_eq!(StompCommand::Unsubscribe.to_string(), "UNSUBSCRIBE");
    assert_eq!(StompCommand::Begin.to_string(), "BEGIN");
    assert_eq!(StompCommand::Commit.to_string(), "COMMIT");
    assert_eq!(StompCommand::Abort.to_string(), "ABORT");
    assert_eq!(StompCommand::Ack.to_string(), "ACK");
    assert_eq!(StompCommand::Nack.to_string(), "NACK");
    assert_eq!(StompCommand::Disconnect.to_string(), "DISCONNECT");
    assert_eq!(StompCommand::Stomp.to_string(), "STOMP");
    assert_eq!(StompCommand::Connected.to_string(), "CONNECTED");
    assert_eq!(StompCommand::Message.to_string(), "MESSAGE");
    assert_eq!(StompCommand::Receipt.to_string(), "RECEIPT");
    assert_eq!(StompCommand::Error.to_string(), "ERROR");
}

#[test]
fn command_name_round_trip() {
    for c in ALL.iter() {
        assert_eq!(StompCommand::from_string(c.to_string()), Some(*c));
        assert_eq!(StompCommand::from_bytes(c.to_string().as_bytes()), Some(*c));
    }
}

#[test]
fn connect_is_stomp() {
    assert_eq!(StompCommand::from_string("CONNECT"), Some(StompCommand::Stomp));
    assert_eq!(StompCommand::from_bytes(b"CONNECT"), Some(StompCommand::Stomp));
}

#[test]
fn unknown_commands() {
    assert_eq!(StompCommand::from_string("send"), None);
    assert_eq!(StompCommand::from_string(""), None);
    assert_eq!(StompCommand::from_string("SEND "), None);
    assert_eq!(StompCommand::from_string("INVALID"), None);
    assert_eq!(StompCommand::from_bytes(b"SENDX"), None);
    assert_eq!(StompCommand::from_bytes(&[0x53, 0xff]), None);
    assert_eq!(StompCommand::from_bytes(&[0xff, 0xfe]), None);
}

#[test]
fn header_set_get() {
    let mut h = Header::new();
    assert!(h.store.is_empty());
    assert_eq!(h.get("a"), None);
    assert!(!h.contains_key("a"));
    h.set("a", "1");
    h.set("b", "2");
    h.set("a", "3");
    assert_eq!(h.get("a"), Some(&"1".to_string()));
    assert_eq!(h.get("b"), Some(&"2".to_string()));
    assert_eq!(h.get("c"), None);
    assert!(h.contains_key("a"));
    assert!(h.contains_key("b"));
    assert!(!h.contains_key("c"));
    assert!(!h.contains_key("A"));
    assert_eq!(pairs(&h), vec![pair("a", "1"), pair("b", "2"), pair("a", "3")]);
}

#[test]
fn header_contains_iff_get() {
    let mut h = Header::new();
    h.set("host", "x");
    h.set("", "empty");
    for k in ["host", "", "hos", "hostx", "x"].iter() {
        assert_eq!(h.contains_key(k), h.get(k).is_some());
    }
    assert_eq!(h.get(""), Some(&"empty".to_string()));
}

#[test]
fn header_text() {
    let mut h = Header::new();
    assert_eq!(h.to_string(), "");
    h.set("a", "1");
    h.set("key", "value:x");
    assert_eq!(h.to_string(), "a:1\r\nkey:value:x\r\n");
}

#[test]
fn frame_constructors() {
    let f = Frame::new();
    assert_eq!(f.command, StompCommand::Error);
    assert!(f.header.store.is_empty());
    assert_eq!(f.body, "");
    let g = Frame::from_command(StompCommand::Receipt);
    assert_eq!(g.command, StompCommand::Receipt);
    assert!(g.header.store.is_empty());
    assert_eq!(g.body, "");
}

#[test]
fn with_body_sets_content_length() {
    let f = Frame::with_body(StompCommand::Send, "hello");
    assert_eq!(f.command, StompCommand::Send);
    assert_eq!(f.body, "hello");
    assert_eq!(pairs(&f.header), vec![pair("content-length", "5")]);
    let e = Frame::with_body(StompCommand::Error, "");
    assert_eq!(pairs(&e.header), vec![pair("content-length", "0")]);
    // the length counts bytes, not characters
    let u = Frame::with_body(StompCommand::Message, "h\u{e9}\u{20ac}");
    assert_eq!(pairs(&u.header), vec![pair("content-length", "6")]);
    let long = "x".repeat(1234);
    let l = Frame::with_body(StompCommand::Send, &long);
    assert_eq!(l.header.get("content-length"), Some(&"1234".to_string()));
    let ten = "y".repeat(10);
    let t = Frame::with_body(StompCommand::Send, &ten);
    assert_eq!(t.header.get("content-length"), Some(&"10".to_string()));
}

#[test]
fn frame_text() {
    let f = Frame::with_body(StompCommand::Error, "oops");
    assert_eq!(f.to_string(), "ERROR\r\ncontent-length:4\r\n\r\n\r\noops\u{0}");
    let g = Frame::from_command(StompCommand::Connected);
    assert_eq!(g.to_string(), "CONNECTED\r\n\r\n\r\n\u{0}");
    assert_eq!(g.to_bytes(), b"CONNECTED\r\n\r\n\r\n\x00".to_vec());
    let u = Frame::with_body(StompCommand::Send, "\u{e9}");
    assert_eq!(u.to_bytes(), b"SEND\r\ncontent-length:2\r\n\r\n\r\n\xc3\xa9\x00".to_vec());
}

#[test]
fn frame_text_delimited() {
    for c in ALL.iter() {
        let t = Frame::with_body(*c, "b").to_string();
        assert!(t.starts_with(c.to_string()));
        assert!(t.ends_with('\u{0}'));
    }
}

#[test]
fn parse_simple_send() {
    let input = b"SEND\ndestination:/queue/a\ncontent-type:text/plain\n\nhello\x00rest";
    let (f, n) = parse_ok(input);
    assert_eq!(f.command, StompCommand::Send);
    assert_eq!(pairs(&f.header), vec![pair("destination", "/queue/a"), pair("content-type", "text/plain")]);
    assert_eq!(f.body, "hello");
    assert_eq!(n, input.len() - 4);
}

#[test]
fn parse_connect_with_crlf_and_leading_newlines() {
    let input = b"\r\n\nCONNECT\r\naccept-version:1.2\r\nhost:example\r\n\r\n\x00";
    let (f, n) = parse_ok(input);
    assert_eq!(f.command, StompCommand::Stomp);
    assert_eq!(pairs(&f.header), vec![pair("accept-version", "1.2"), pair("host", "example")]);
    assert_eq!(f.body, "");
    assert_eq!(n, input.len());
}

#[test]
fn parse_no_header() {
    let (f, n) = parse_ok(b"DISCONNECT\n\n\x00");
    assert_eq!(f.command, StompCommand::Disconnect);
    assert!(f.header.store.is_empty());
    assert_eq!(f.body, "");
    assert_eq!(n, 13);
}

#[test]
fn parse_body_ends_at_input_end() {
    let (f, n) = parse_ok(b"MESSAGE\n\nunterminated");
    assert_eq!(f.command, StompCommand::Message);
    assert_eq!(f.body, "unterminated");
    assert_eq!(n, 21);
}

#[test]
fn parse_escapes() {
    let (f, _) = parse_ok(b"SEND\na\\cb:x\\ny\\rz\n\n\x00");
    assert_eq!(pairs(&f.header), vec![pair("a:b", "x\ny\rz")]);
}

#[test]
fn parse_double_backslash_is_dropped() {
    // a second backslash only renews the escape, so both are lost
    let (f, _) = parse_ok(b"SEND\nk:a\\\\nb\n\n\x00");
    assert_eq!(pairs(&f.header), vec![pair("k", "a\nb")]);
}

#[test]
fn parse_colons_in_value_are_dropped() {
    let (f, _) = parse_ok(b"SEND\nk:a:b:c\n\n\x00");
    assert_eq!(pairs(&f.header), vec![pair("k", "abc")]);
}

#[test]
fn parse_line_without_key_is_dropped() {
    let (f, _) = parse_ok(b"SEND\n:orphan\nk:v\n\n\x00");
    assert_eq!(pairs(&f.header), vec![pair("k", "v")]);
}

#[test]
fn parse_utf8_header_and_body() {
    let (f, _) = parse_ok("SEND\nk\u{e9}y:v\u{20ac}\n\nb\u{f6}dy\u{0}".as_bytes());
    assert_eq!(pairs(&f.header), vec![pair("k\u{e9}y", "v\u{20ac}")]);
    assert_eq!(f.body, "b\u{f6}dy");
}

#[test]
fn parse_invalid_command() {
    assert_eq!(parse_err(b"FOO\n\n\x00"), (ParseError::InvalidCommand, 4));
    assert_eq!(parse_err(b""), (ParseError::InvalidCommand, 0));
    assert_eq!(parse_err(b"\n\r\n"), (ParseError::InvalidCommand, 3));
    assert_eq!(parse_err(b"\xff\n"), (ParseError::InvalidCommand, 2));
}

#[test]
fn parse_malformed_header() {
    assert_eq!(parse_err(b"SEND\nnocolon\n\n\x00"), (ParseError::MalformedHeader, 13));
}

#[test]
fn parse_invalid_escape() {
    assert_eq!(parse_err(b"SEND\nk:\\t\n\n\x00"), (ParseError::InvalidEscape, 9));
}

#[test]
fn parse_header_not_utf8() {
    assert_eq!(parse_err(b"SEND\nk:\xff\n\n\x00"), (ParseError::HeaderNotUtf8, 9));
    assert_eq!(parse_err(b"SEND\n\xfe:v\n\n\x00"), (ParseError::HeaderNotUtf8, 9));
}

#[test]
fn parse_missing_line_breaks() {
    assert_eq!(parse_err(b"SEND"), (ParseError::MissingLineBreaks, 4));
    assert_eq!(parse_err(b"SEND\nk:v\n"), (ParseError::MissingLineBreaks, 9));
    assert_eq!(parse_err(b"SEND\nk:v"), (ParseError::MissingLineBreaks, 8));
}

#[test]
fn parse_body_not_allowed() {
    assert_eq!(parse_err(b"SUBSCRIBE\n\nbody\x00"), (ParseError::BodyNotAllowed, 16));
    let (f, _) = parse_ok(b"SUBSCRIBE\n\n\x00");
    assert_eq!(f.command, StompCommand::Subscribe);
    for c in [StompCommand::Send, StompCommand::Message, StompCommand::Error].iter() {
        let input = format!("{}\n\nb\u{0}", c.to_string());
        let (f, _) = parse_ok(input.as_bytes());
        assert_eq!(f.command, *c);
        assert_eq!(f.body, "b");
    }
}

#[test]
fn parse_body_not_utf8() {
    assert_eq!(parse_err(b"SEND\n\n\xc3\x00"), (ParseError::BodyNotUtf8, 8));
}

#[test]
fn parsed_frame_text_keeps_an_extra_line_break() {
    // the wire text puts a CR LF between the header's blank line and the
    // body, which the parser keeps as part of the body
    let f = Frame::with_body(StompCommand::Send, "hi");
    let (g, _) = parse_ok(&f.to_bytes());
    assert_eq!(g.command, StompCommand::Send);
    assert_eq!(pairs(&g.header), vec![pair("content-length", "2")]);
    assert_eq!(g.body, "\r\nhi");
    let c = Frame::from_command(StompCommand::Connected);
    assert_eq!(parse_err(&c.to_bytes()).0, ParseError::BodyNotAllowed);
}

#[test]
fn parse_reads_only_its_frame() {
    let input = b"SEND\n\none\x00SEND\n\ntwo\x00";
    let (f, n) = parse_ok(input);
    assert_eq!(f.body, "one");
    assert_eq!(n, 10);
    let (g, m) = parse_ok(&input[..n]);
    assert_eq!(g.body, "one");
    assert_eq!(m, n);
    let (h, k) = parse_ok(&input[n..]);
    assert_eq!(h.body, "two");
    assert_eq!(k, 10);
}

#[test]
fn feed_matches_parse_frame() {
    let input = b"MESSAGE\nid:7\n\npayload\x00";
    let mut parser = FrameParser::new();
    let mut result = None;
    for (i, b) in input.iter().enumerate() {
        match parser.feed(*b) {
            Feed::Continue(p) => parser = p,
            Feed::Finished(r) => {
                result = Some((r, i + 1));
                break;
            }
        }
    }
    let (r, n) = result.expect("the frame ends at its NUL");
    let f = r.expect("a frame");
    assert_eq!(n, input.len());
    assert_eq!(f.command, StompCommand::Message);
    assert_eq!(pairs(&f.header), vec![pair("id", "7")]);
    assert_eq!(f.body, "payload");
}

#[test]
fn finish_at_end_of_input() {
    let mut parser = FrameParser::new();
    for b in b"SEND\n\nabc".iter() {
        match parser.feed(*b) {
            Feed::Continue(p) => parser = p,
            Feed::Finished(_) => panic!("the frame has no NUL"),
        }
    }
    let f = parser.finish().expect("a frame");
    assert_eq!(f.body, "abc");
    assert_eq!(FrameParser::new().finish().err(), Some(ParseError::InvalidCommand));
}

#[test]
fn error_messages() {
    assert_eq!(ParseError::InvalidCommand.message(), "Invalid command");
    assert_eq!(ParseError::MalformedHeader.message(), "Failed to parse header.");
    assert_eq!(ParseError::InvalidEscape.message(), "Invalid escape sequence");
    assert_eq!(ParseError::MissingLineBreaks.message(), "Missing line breaks after header.");
    assert_eq!(ParseError::BodyNotUtf8.message(), "Error decoding body.");
    assert_eq!(ParseError::BodyNotAllowed.message(), "This type of frame may not have a body.");
    assert_eq!(ParseError::HeaderNotUtf8.message(), "Header is not valid UTF-8.");
}
