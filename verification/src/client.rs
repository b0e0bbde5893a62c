//! The answers a server gives to a client's frames.
//!
//! A session starts with a `STOMP` (or `CONNECT`) frame, which is answered
//! with `CONNECTED` or `ERROR`; every later frame is handed to the server,
//! whose answer goes back to the client. A frame that cannot be parsed is
//! answered with an `ERROR` frame that carries the reason, and a session
//! ends once an `ERROR` frame has been sent.
use vstd::prelude::*;
use vstd::utf8::*;

use crate::stomp::parse::{ParseError, error_message};
use crate::stomp::text::{decimal, text_eq};
use crate::stomp::{Frame, FrameView, StompCommand, header_has, header_lookup, lemma_has_iff_lookup};

verus! {

/// The protocol version this server speaks.
pub const PROTO_VERS: &'static str = "1.2";

/// The name this server gives in its `CONNECTED` frames.
pub const SERVER_STR: &'static str = "romp/0.1.0";

/// An `ERROR` frame carrying `message` as its body, as `Frame::with_body`
/// makes it.
pub open spec fn error_frame(message: Seq<char>) -> FrameView {
    FrameView {
        command: StompCommand::Error,
        header: seq![("content-length"@, decimal(encode_utf8(message).len()))],
        body: message,
    }
}

/// The answer to the first frame of a session.
pub open spec fn connect_response(r: FrameView) -> FrameView {
    if r.command != StompCommand::Stomp {
        error_frame("Invalid command; expected STOMP or CONNECT."@)
    } else if !header_has(r.header, "accept-version"@) {
        error_frame("Invalid frame; expected 'accept-version' header."@)
    } else if !header_has(r.header, "host"@) {
        error_frame("Invalid frame; expected 'host' header."@)
    } else if header_lookup(r.header, "accept-version"@) != Some(PROTO_VERS@) {
        error_frame("Invalid protocol version."@)
    } else {
        FrameView {
            command: StompCommand::Connected,
            header: seq![("version"@, "1.2"@), ("server"@, SERVER_STR@)],
            body: Seq::empty(),
        }
    }
}

/// Answers the first frame of a session: a `CONNECTED` frame when it is a
/// `STOMP` frame with the `accept-version` and `host` headers and the first
/// `accept-version` is this server's version, else an `ERROR` frame that
/// says which of these failed.
pub fn do_connect(r: &Frame) -> (response: Frame)
    ensures
        response@ == connect_response(r@),
{
    proof {
        lemma_has_iff_lookup(r.header@, "accept-version"@);
    }
    if r.command != StompCommand::Stomp {
        Frame::with_body(StompCommand::Error, "Invalid command; expected STOMP or CONNECT.")
    } else if !r.header.contains_key("accept-version") {
        Frame::with_body(StompCommand::Error, "Invalid frame; expected 'accept-version' header.")
    } else if !r.header.contains_key("host") {
        Frame::with_body(StompCommand::Error, "Invalid frame; expected 'host' header.")
    } else {
        let version_ok = match r.header.get("accept-version") {
            Some(v) => text_eq(v.as_str(), PROTO_VERS),
            None => false,
        };
        if !version_ok {
            Frame::with_body(StompCommand::Error, "Invalid protocol version.")
        } else {
            let mut response = Frame::from_command(StompCommand::Connected);
            response.header.set("version", "1.2");
            response.header.set("server", SERVER_STR);
            response
        }
    }
}

/// The `ERROR` frame that tells a client why its bytes are not a frame.
/// A header that is not UTF-8 gets no answer: the session is dropped.
pub fn error_reply(e: ParseError) -> (r: Frame)
    requires
        e != ParseError::HeaderNotUtf8,
    ensures
        r@ == error_frame(error_message(e)),
{
    Frame::with_body(StompCommand::Error, e.message())
}

/// The answer to the first frame of a session, and whether the session ends
/// after it: it ends whenever the answer is an `ERROR` frame, that is when
/// the frame could not be parsed or was not an acceptable connect.
pub fn first_reply(request: &Result<Frame, ParseError>) -> (r: (Frame, bool))
    requires
        !(request matches Err(ParseError::HeaderNotUtf8)),
    ensures
        match request {
            Ok(f) => r.0@ == connect_response(f@) && r.1 == (connect_response(f@).command
                == StompCommand::Error),
            Err(e) => r.0@ == error_frame(error_message(*e)) && r.1,
        },
        r.1 == (r.0.command == StompCommand::Error),
{
    match request {
        Ok(f) => {
            let response = do_connect(f);
            let close = ends_session(&response);
            (response, close)
        },
        Err(e) => (error_reply(*e), true),
    }
}

/// Whether a session ends once `response` has been sent: after an `ERROR`
/// frame the connection is closed.
pub fn ends_session(response: &Frame) -> (r: bool)
    ensures
        r == (response.command == StompCommand::Error),
{
    response.command == StompCommand::Error
}

/// The first frame of a session is answered with `CONNECTED` or `ERROR`,
/// and with `CONNECTED` exactly when it is a `STOMP` frame that names this
/// server's protocol version first among its `accept-version` pairs and has
/// a `host` pair.
pub proof fn lemma_connect_answers(r: FrameView)
    ensures
        connect_response(r).command == StompCommand::Connected
            || connect_response(r).command == StompCommand::Error,
        connect_response(r).command == StompCommand::Connected <==> (r.command == StompCommand::Stomp
            && header_lookup(r.header, "accept-version"@) == Some(PROTO_VERS@)
            && header_has(r.header, "host"@)),
{
    lemma_has_iff_lookup(r.header, "accept-version"@);
}

/// Every frame the server sends for a rejected request ends the session.
pub proof fn lemma_error_replies_end_session(message: Seq<char>)
    ensures
        error_frame(message).command == StompCommand::Error,
{
}

/// Every `CONNECTED` answer is the same frame, whatever else the request
/// carries: exactly the pairs `version:1.2` and `server:SERVER_STR`, in that
/// order, and no body.
pub proof fn lemma_connected_answer_is_fixed(r1: FrameView, r2: FrameView)
    ensures
        connect_response(r1).command == StompCommand::Connected ==> {
            &&& connect_response(r1).header == seq![("version"@, "1.2"@), ("server"@, SERVER_STR@)]
            &&& connect_response(r1).body == Seq::<char>::empty()
        },
        connect_response(r1).command == StompCommand::Connected
            && connect_response(r2).command == StompCommand::Connected
            ==> connect_response(r1) == connect_response(r2),
{
    reveal_strlit("Invalid command; expected STOMP or CONNECT.");
}

} // verus!
