//! The frame parser.
//!
//! A frame is read one byte at a time, in three stages:
//! - the command line: every byte up to the first line feed that follows a
//!   byte other than CR or LF, with CR and LF left out, names the command;
//! - the header: one `key:value` pair per line, CR ignored, a backslash
//!   escaping the next ordinary byte; the header ends at the second line feed
//!   with no ordinary byte between (the line feed that ends the command line
//!   counts as the first);
//! - the body: every byte up to a NUL, which ends the frame.
//!
//! `FrameParser` takes the bytes as they arrive, so that a reader of a stream
//! can stop at the end of the frame; `parse_frame` runs it over a buffer.
use vstd::prelude::*;
use vstd::utf8::*;

use super::text::decode_text;
use super::{FrameView, Frame, Header, HeaderView, StompCommand, command_from_bytes, command_name, lemma_command_name_round_trip};

verus! {

broadcast use vstd::utf8::encode_utf8_decode_utf8, vstd::utf8::encode_utf8_valid_utf8;

/// Why a byte sequence is not a frame.
#[derive(Debug, Clone, Copy, PartialEq, Eq, Structural)]
pub enum ParseError {
    /// The command line names no command.
    InvalidCommand,
    /// A header line holds bytes but no colon.
    MalformedHeader,
    /// A backslash is followed by a byte that is not `r`, `n`, `c` or a
    /// backslash.
    InvalidEscape,
    /// A header key or value is not UTF-8.
    HeaderNotUtf8,
    /// The input ended before the blank line that ends the header.
    MissingLineBreaks,
    /// The body is not UTF-8.
    BodyNotUtf8,
    /// The frame has a body, but its command allows none.
    BodyNotAllowed,
}

/// The text sent back to a client for each error.
pub open spec fn error_message(e: ParseError) -> Seq<char> {
    match e {
        ParseError::InvalidCommand => "Invalid command"@,
        ParseError::MalformedHeader => "Failed to parse header."@,
        ParseError::InvalidEscape => "Invalid escape sequence"@,
        ParseError::HeaderNotUtf8 => "Header is not valid UTF-8."@,
        ParseError::MissingLineBreaks => "Missing line breaks after header."@,
        ParseError::BodyNotUtf8 => "Error decoding body."@,
        ParseError::BodyNotAllowed => "This type of frame may not have a body."@,
    }
}

impl ParseError {
    /// The text sent back to a client for this error.
    pub fn message(&self) -> (r: &'static str)
        ensures
            r@ == error_message(*self),
    {
        match self {
            ParseError::InvalidCommand => "Invalid command",
            ParseError::MalformedHeader => "Failed to parse header.",
            ParseError::InvalidEscape => "Invalid escape sequence",
            ParseError::HeaderNotUtf8 => "Header is not valid UTF-8.",
            ParseError::MissingLineBreaks => "Missing line breaks after header.",
            ParseError::BodyNotUtf8 => "Error decoding body.",
            ParseError::BodyNotAllowed => "This type of frame may not have a body.",
        }
    }
}

/// The byte that an escape letter of a header stands for: `r` for CR, `n`
/// for LF, `c` for a colon and a backslash for itself.
pub open spec fn spec_unescape(b: u8) -> Option<u8> {
    if b == 114 {
        Some(13u8)
    } else if b == 110 {
        Some(10u8)
    } else if b == 99 {
        Some(58u8)
    } else if b == 92 {
        Some(92u8)
    } else {
        None
    }
}

fn unescape(b: u8) -> (r: Option<u8>)
    ensures
        r == spec_unescape(b),
{
    match b {
        114 => Some(13),
        110 => Some(10),
        99 => Some(58),
        92 => Some(92),
        _ => None,
    }
}

/// Whether a frame with this command may carry a body.
pub open spec fn may_have_body(c: StompCommand) -> bool {
    c == StompCommand::Send || c == StompCommand::Message || c == StompCommand::Error
}

/// The stage a parser is in.
#[derive(Debug, Clone, Copy, PartialEq, Eq, Structural)]
pub enum Stage {
    Command,
    Header,
    Body,
}

/// What a parser holds, as plain values.
#[verifier::ext_equal]
pub struct ParserView {
    pub stage: Stage,
    /// The bytes of the command line so far, CR and LF left out.
    pub line: Seq<u8>,
    /// The command, once the command line is read.
    pub command: StompCommand,
    /// The header pairs read so far.
    pub header: HeaderView,
    /// Whether the last byte that was neither CR, colon nor backslash was a
    /// line feed (or none came yet since the command line).
    pub line_ended: bool,
    /// The key and value bytes of the current header line.
    pub key: Seq<u8>,
    pub value: Seq<u8>,
    /// Whether the current header line has had a colon.
    pub colon: bool,
    /// Whether a backslash waits for the byte it escapes.
    pub escape: bool,
    /// The body bytes so far.
    pub body: Seq<u8>,
}

/// Where a parser is after one more byte.
#[verifier::ext_equal]
pub enum Progress {
    /// The frame goes on.
    Continue(ParserView),
    /// The byte ended the frame, or showed that there is none.
    Finished(Result<FrameView, ParseError>),
}

/// A parser that has read nothing.
pub open spec fn initial_view() -> ParserView {
    ParserView {
        stage: Stage::Command,
        line: Seq::empty(),
        command: StompCommand::Error,
        header: Seq::empty(),
        line_ended: true,
        key: Seq::empty(),
        value: Seq::empty(),
        colon: false,
        escape: false,
        body: Seq::empty(),
    }
}

/// The frame that a complete body makes.
pub open spec fn body_result(s: ParserView) -> Result<FrameView, ParseError> {
    if !valid_utf8(s.body) {
        Err(ParseError::BodyNotUtf8)
    } else if s.body.len() > 0 && !may_have_body(s.command) {
        Err(ParseError::BodyNotAllowed)
    } else {
        Ok(FrameView { command: s.command, header: s.header, body: decode_utf8(s.body) })
    }
}

/// Adds a byte to the key, or to the value once the line has had a colon.
pub open spec fn add_header_byte(s: ParserView, b: u8) -> ParserView {
    if s.colon {
        ParserView { value: s.value.push(b), ..s }
    } else {
        ParserView { key: s.key.push(b), ..s }
    }
}

/// One byte of the command line.
pub open spec fn command_step(s: ParserView, b: u8) -> Progress {
    if b == 10 && s.line.len() > 0 {
        match command_from_bytes(s.line) {
            None => Progress::Finished(Err(ParseError::InvalidCommand)),
            Some(c) => Progress::Continue(ParserView { stage: Stage::Header, command: c, ..s }),
        }
    } else if b == 10 || b == 13 {
        Progress::Continue(s)
    } else {
        Progress::Continue(ParserView { line: s.line.push(b), ..s })
    }
}

/// One byte of the header.
pub open spec fn header_step(s: ParserView, b: u8) -> Progress {
    if b == 10 {
        if s.line_ended {
            Progress::Continue(ParserView { stage: Stage::Body, ..s })
        } else if s.key.len() > 0 && !s.colon {
            Progress::Finished(Err(ParseError::MalformedHeader))
        } else if s.key.len() > 0 && !(valid_utf8(s.key) && valid_utf8(s.value)) {
            Progress::Finished(Err(ParseError::HeaderNotUtf8))
        } else {
            Progress::Continue(ParserView {
                header: if s.key.len() > 0 {
                    s.header.push((decode_utf8(s.key), decode_utf8(s.value)))
                } else {
                    s.header
                },
                line_ended: true,
                key: Seq::empty(),
                value: Seq::empty(),
                colon: false,
                ..s
            })
        }
    } else if b == 13 {
        Progress::Continue(s)
    } else if b == 58 {
        Progress::Continue(ParserView { colon: true, ..s })
    } else if b == 92 {
        Progress::Continue(ParserView { escape: true, ..s })
    } else if s.escape {
        match spec_unescape(b) {
            None => Progress::Finished(Err(ParseError::InvalidEscape)),
            Some(u) => Progress::Continue(
                add_header_byte(ParserView { line_ended: false, escape: false, ..s }, u),
            ),
        }
    } else {
        Progress::Continue(add_header_byte(ParserView { line_ended: false, ..s }, b))
    }
}

/// One byte of the body.
pub open spec fn body_step(s: ParserView, b: u8) -> Progress {
    if b == 0 {
        Progress::Finished(body_result(s))
    } else {
        Progress::Continue(ParserView { body: s.body.push(b), ..s })
    }
}

/// What one more byte does to a parser.
pub open spec fn step(s: ParserView, b: u8) -> Progress {
    match s.stage {
        Stage::Command => command_step(s, b),
        Stage::Header => header_step(s, b),
        Stage::Body => body_step(s, b),
    }
}

/// The outcome when the input ends.
pub open spec fn end_result(s: ParserView) -> Result<FrameView, ParseError> {
    match s.stage {
        Stage::Command => match command_from_bytes(s.line) {
            None => Err(ParseError::InvalidCommand),
            Some(_) => Err(ParseError::MissingLineBreaks),
        },
        Stage::Header => Err(ParseError::MissingLineBreaks),
        Stage::Body => body_result(s),
    }
}

/// The outcome of feeding `input` to a parser in state `s`, and how many
/// bytes it takes: the bytes up to the one that finishes the frame, or all
/// of them when the input ends first.
pub open spec fn run(s: ParserView, input: Seq<u8>) -> (Result<FrameView, ParseError>, nat)
    decreases input.len(),
{
    if input.len() == 0 {
        (end_result(s), 0)
    } else {
        match step(s, input[0]) {
            Progress::Finished(r) => (r, 1),
            Progress::Continue(t) => {
                let (r, n) = run(t, input.drop_first());
                (r, n + 1)
            },
        }
    }
}

/// The frame at the start of `input`, and how many bytes it takes.
pub open spec fn parse_spec(input: Seq<u8>) -> (Result<FrameView, ParseError>, nat) {
    run(initial_view(), input)
}

/// A parse outcome as plain values.
pub open spec fn result_view(r: Result<Frame, ParseError>) -> Result<FrameView, ParseError> {
    match r {
        Ok(f) => Ok(f@),
        Err(e) => Err(e),
    }
}

/// A frame parser that takes one byte at a time.
pub struct FrameParser {
    stage: Stage,
    line: Vec<u8>,
    command: StompCommand,
    header: Header,
    line_ended: bool,
    key: Vec<u8>,
    value: Vec<u8>,
    colon: bool,
    escape: bool,
    body: Vec<u8>,
}

impl View for FrameParser {
    type V = ParserView;

    closed spec fn view(&self) -> ParserView {
        ParserView {
            stage: self.stage,
            line: self.line@,
            command: self.command,
            header: self.header@,
            line_ended: self.line_ended,
            key: self.key@,
            value: self.value@,
            colon: self.colon,
            escape: self.escape,
            body: self.body@,
        }
    }
}

/// Where a parser is after one more byte.
pub enum Feed {
    /// The frame goes on; the parser takes the next byte.
    Continue(FrameParser),
    /// The byte ended the frame, or showed that there is none.
    Finished(Result<Frame, ParseError>),
}

impl View for Feed {
    type V = Progress;

    open spec fn view(&self) -> Progress {
        match self {
            Feed::Continue(p) => Progress::Continue(p@),
            Feed::Finished(r) => Progress::Finished(result_view(*r)),
        }
    }
}

impl FrameParser {
    /// A parser that has read nothing.
    pub fn new() -> (r: FrameParser)
        ensures
            r@ == initial_view(),
    {
        FrameParser {
            stage: Stage::Command,
            line: Vec::new(),
            command: StompCommand::Error,
            header: Header::new(),
            line_ended: true,
            key: Vec::new(),
            value: Vec::new(),
            colon: false,
            escape: false,
            body: Vec::new(),
        }
    }

    fn add_header_byte(&mut self, b: u8)
        ensures
            final(self)@ == add_header_byte(old(self)@, b),
    {
        if self.colon {
            self.value.push(b);
        } else {
            self.key.push(b);
        }
    }

    fn complete_body(self) -> (r: Result<Frame, ParseError>)
        ensures
            result_view(r) == body_result(self@),
    {
        match decode_text(self.body.as_slice()) {
            None => Err(ParseError::BodyNotUtf8),
            Some(body) => {
                let allowed = self.command == StompCommand::Send || self.command == StompCommand::Message
                    || self.command == StompCommand::Error;
                if self.body.len() > 0 && !allowed {
                    Err(ParseError::BodyNotAllowed)
                } else {
                    Ok(Frame { command: self.command, header: self.header, body })
                }
            },
        }
    }

    fn feed_command(self, byte: u8) -> (r: Feed)
        requires
            self@.stage == Stage::Command,
        ensures
            r@ == command_step(self@, byte),
    {
        let mut this = self;
        if byte == 10 && this.line.len() > 0 {
            match StompCommand::from_bytes(this.line.as_slice()) {
                None => Feed::Finished(Err(ParseError::InvalidCommand)),
                Some(c) => {
                    this.command = c;
                    this.stage = Stage::Header;
                    Feed::Continue(this)
                },
            }
        } else if byte == 10 || byte == 13 {
            Feed::Continue(this)
        } else {
            this.line.push(byte);
            Feed::Continue(this)
        }
    }

    fn end_header_line(self) -> (r: Feed)
        requires
            self@.stage == Stage::Header,
            !self@.line_ended,
        ensures
            r@ == header_step(self@, 10),
    {
        let mut this = self;
        if this.key.len() > 0 {
            if !this.colon {
                return Feed::Finished(Err(ParseError::MalformedHeader));
            }
            let key = decode_text(this.key.as_slice());
            let value = decode_text(this.value.as_slice());
            match (key, value) {
                (Some(k), Some(v)) => {
                    this.header.set(k.as_str(), v.as_str());
                },
                _ => {
                    return Feed::Finished(Err(ParseError::HeaderNotUtf8));
                },
            }
        }
        this.key = Vec::new();
        this.value = Vec::new();
        this.colon = false;
        this.line_ended = true;
        Feed::Continue(this)
    }

    fn feed_header(self, byte: u8) -> (r: Feed)
        requires
            self@.stage == Stage::Header,
        ensures
            r@ == header_step(self@, byte),
    {
        let mut this = self;
        if byte == 10 {
            if this.line_ended {
                this.stage = Stage::Body;
                Feed::Continue(this)
            } else {
                this.end_header_line()
            }
        } else if byte == 13 {
            Feed::Continue(this)
        } else if byte == 58 {
            this.colon = true;
            Feed::Continue(this)
        } else if byte == 92 {
            this.escape = true;
            Feed::Continue(this)
        } else if this.escape {
            match unescape(byte) {
                None => Feed::Finished(Err(ParseError::InvalidEscape)),
                Some(u) => {
                    this.line_ended = false;
                    this.escape = false;
                    this.add_header_byte(u);
                    Feed::Continue(this)
                },
            }
        } else {
            this.line_ended = false;
            this.add_header_byte(byte);
            Feed::Continue(this)
        }
    }

    fn feed_body(self, byte: u8) -> (r: Feed)
        requires
            self@.stage == Stage::Body,
        ensures
            r@ == body_step(self@, byte),
    {
        let mut this = self;
        if byte == 0 {
            Feed::Finished(this.complete_body())
        } else {
            this.body.push(byte);
            Feed::Continue(this)
        }
    }

    /// Takes the next byte of the input.
    pub fn feed(self, byte: u8) -> (r: Feed)
        ensures
            r@ == step(self@, byte),
    {
        match self.stage {
            Stage::Command => self.feed_command(byte),
            Stage::Header => self.feed_header(byte),
            Stage::Body => self.feed_body(byte),
        }
    }

    /// The outcome when the input ends here.
    pub fn finish(self) -> (r: Result<Frame, ParseError>)
        ensures
            result_view(r) == end_result(self@),
    {
        match self.stage {
            Stage::Command => match StompCommand::from_bytes(self.line.as_slice()) {
                None => Err(ParseError::InvalidCommand),
                Some(_) => Err(ParseError::MissingLineBreaks),
            },
            Stage::Header => Err(ParseError::MissingLineBreaks),
            Stage::Body => self.complete_body(),
        }
    }
}

/// Parses the frame at the start of `input`: its outcome, and how many bytes
/// it takes (up to and with the byte that finishes it, or all of `input`).
pub fn parse_frame(input: &[u8]) -> (r: (Result<Frame, ParseError>, usize))
    ensures
        (result_view(r.0), r.1 as nat) == parse_spec(input@),
{
    let n = input.len();
    let mut parser = FrameParser::new();
    let mut i: usize = 0;
    assert(input@.skip(0) =~= input@);
    while i < n
        invariant
            n == input@.len(),
            0 <= i <= n,
            parse_spec(input@) == ({
                let (r, k) = run(parser@, input@.skip(i as int));
                (r, (k + i) as nat)
            }),
        decreases n - i,
    {
        let byte = input[i];
        proof {
            assert(input@.skip(i as int)[0] == byte);
            assert(input@.skip(i as int).drop_first() =~= input@.skip(i + 1));
        }
        match parser.feed(byte) {
            Feed::Continue(p) => {
                parser = p;
            },
            Feed::Finished(r) => {
                return (r, i + 1);
            },
        }
        i = i + 1;
    }
    assert(input@.skip(n as int) =~= Seq::<u8>::empty());
    (parser.finish(), n)
}

/// Whether every header pair held so far has a key.
pub open spec fn keys_nonempty(h: HeaderView) -> bool {
    forall|i: int| 0 <= i < h.len() ==> (#[trigger] h[i]).0.len() > 0
}

proof fn lemma_decode_nonempty(b: Seq<u8>)
    requires
        valid_utf8(b),
    ensures
        b.len() > 0 <==> decode_utf8(b).len() > 0,
{
}

proof fn lemma_step_keeps_keys(s: ParserView, b: u8)
    requires
        keys_nonempty(s.header),
    ensures
        step(s, b) matches Progress::Continue(t) ==> keys_nonempty(t.header),
        step(s, b) matches Progress::Finished(Ok(f)) ==> keys_nonempty(f.header),
{
    if s.stage == Stage::Header && b == 10 && !s.line_ended && s.key.len() > 0 && s.colon
        && valid_utf8(s.key) && valid_utf8(s.value) {
        lemma_decode_nonempty(s.key);
        let h = s.header.push((decode_utf8(s.key), decode_utf8(s.value)));
        assert forall|i: int| 0 <= i < h.len() implies (#[trigger] h[i]).0.len() > 0 by {
            if i < s.header.len() {
                assert(h[i] == s.header[i]);
            }
        }
    }
}

proof fn lemma_run_keys(s: ParserView, input: Seq<u8>)
    requires
        keys_nonempty(s.header),
    ensures
        run(s, input).0 matches Ok(f) ==> keys_nonempty(f.header),
    decreases input.len(),
{
    if input.len() > 0 {
        lemma_step_keeps_keys(s, input[0]);
        if let Progress::Continue(t) = step(s, input[0]) {
            lemma_run_keys(t, input.drop_first());
        }
    }
}

/// Every header pair of a parsed frame has a non-empty key: a line with no
/// key is dropped, whatever its value.
pub proof fn lemma_parsed_keys_nonempty(input: Seq<u8>)
    ensures
        parse_spec(input).0 matches Ok(f) ==> keys_nonempty(f.header),
{
    lemma_run_keys(initial_view(), input);
}

proof fn lemma_body_result_allowed(s: ParserView)
    ensures
        body_result(s) matches Ok(f) ==> (f.body.len() > 0 ==> may_have_body(f.command)),
{
    if valid_utf8(s.body) {
        lemma_decode_nonempty(s.body);
    }
}

proof fn lemma_run_body_allowed(s: ParserView, input: Seq<u8>)
    ensures
        run(s, input).0 matches Ok(f) ==> (f.body.len() > 0 ==> may_have_body(f.command)),
    decreases input.len(),
{
    lemma_body_result_allowed(s);
    if input.len() > 0 {
        match step(s, input[0]) {
            Progress::Continue(t) => lemma_run_body_allowed(t, input.drop_first()),
            Progress::Finished(_) => {},
        }
    }
}

/// Only `SEND`, `MESSAGE` and `ERROR` frames come out of the parser with a
/// body.
pub proof fn lemma_parsed_body_allowed(input: Seq<u8>)
    ensures
        parse_spec(input).0 matches Ok(f) ==> (f.body.len() > 0 ==> may_have_body(f.command)),
{
    lemma_run_body_allowed(initial_view(), input);
}

proof fn lemma_run_prefix(s: ParserView, input: Seq<u8>, more: Seq<u8>)
    ensures
        run(s, input).1 <= input.len(),
        run(s, input).1 < input.len() ==> run(s, input + more) == run(s, input),
        run(s, input.take(run(s, input).1 as int)) == run(s, input),
    decreases input.len(),
{
    if input.len() > 0 {
        assert((input + more)[0] == input[0]);
        assert((input + more).drop_first() =~= input.drop_first() + more);
        match step(s, input[0]) {
            Progress::Continue(t) => {
                lemma_run_prefix(t, input.drop_first(), more);
                let n = run(s, input).1;
                let k = input.take(n as int);
                assert(k[0] == input[0]);
                assert(k.drop_first() =~= input.drop_first().take(run(t, input.drop_first()).1 as int));
            },
            Progress::Finished(_) => {
                assert(input.take(1)[0] == input[0]);
            },
        }
    } else {
        assert(input.take(0) =~= input);
    }
}

/// The parser reads no further than the bytes it reports taking: those
/// bytes alone give the same outcome, and once it has finished before the
/// end of its input, more input changes nothing.
pub proof fn lemma_parse_reads_only_its_frame(input: Seq<u8>, more: Seq<u8>)
    ensures
        parse_spec(input).1 <= input.len(),
        input.len() > 0 ==> parse_spec(input).1 > 0,
        parse_spec(input.take(parse_spec(input).1 as int)) == parse_spec(input),
        parse_spec(input).1 < input.len() ==> parse_spec(input + more) == parse_spec(input),
{
    lemma_run_prefix(initial_view(), input, more);
}

/// A byte with no meaning of its own on a header line: not LF, CR, colon or
/// backslash.
pub open spec fn ordinary_header_byte(b: u8) -> bool {
    b != 10 && b != 13 && b != 58 && b != 92
}

/// A run outcome with `k` more bytes taken.
pub open spec fn taking_more(r: (Result<FrameView, ParseError>, nat), k: nat) -> (
    Result<FrameView, ParseError>,
    nat,
) {
    (r.0, r.1 + k)
}

proof fn lemma_run_command_bytes(s: ParserView, bytes: Seq<u8>, rest: Seq<u8>)
    requires
        s.stage == Stage::Command,
        forall|i: int| 0 <= i < bytes.len() ==> #[trigger] bytes[i] != 10 && bytes[i] != 13,
    ensures
        run(s, bytes + rest) == taking_more(run(ParserView { line: s.line + bytes, ..s }, rest), bytes.len()),
    decreases bytes.len(),
{
    if bytes.len() == 0 {
        assert(bytes + rest =~= rest);
        assert(ParserView { line: s.line + bytes, ..s } =~= s);
    } else {
        let b = bytes[0];
        assert((bytes + rest)[0] == b);
        assert((bytes + rest).drop_first() =~= bytes.drop_first() + rest);
        let t = ParserView { line: s.line.push(b), ..s };
        assert(step(s, b) == Progress::Continue(t));
        lemma_run_command_bytes(t, bytes.drop_first(), rest);
        assert(t.line + bytes.drop_first() =~= s.line + bytes);
        assert(ParserView { line: t.line + bytes.drop_first(), ..t } =~= ParserView { line: s.line + bytes, ..s });
    }
}

proof fn lemma_run_header_bytes(s: ParserView, bytes: Seq<u8>, rest: Seq<u8>)
    requires
        s.stage == Stage::Header,
        !s.escape,
        bytes.len() > 0,
        forall|i: int| 0 <= i < bytes.len() ==> ordinary_header_byte(#[trigger] bytes[i]),
    ensures
        run(s, bytes + rest) == taking_more(
            run(
                if s.colon {
                    ParserView { value: s.value + bytes, line_ended: false, ..s }
                } else {
                    ParserView { key: s.key + bytes, line_ended: false, ..s }
                },
                rest,
            ),
            bytes.len(),
        ),
    decreases bytes.len(),
{
    let b = bytes[0];
    assert(ordinary_header_byte(b));
    assert((bytes + rest)[0] == b);
    assert((bytes + rest).drop_first() =~= bytes.drop_first() + rest);
    let t = add_header_byte(ParserView { line_ended: false, ..s }, b);
    assert(step(s, b) == Progress::Continue(t));
    let goal = if s.colon {
        ParserView { value: s.value + bytes, line_ended: false, ..s }
    } else {
        ParserView { key: s.key + bytes, line_ended: false, ..s }
    };
    if bytes.len() == 1 {
        assert(bytes.drop_first() + rest =~= rest);
        assert(t =~= goal);
    } else {
        lemma_run_header_bytes(t, bytes.drop_first(), rest);
        let reached = if t.colon {
            ParserView { value: t.value + bytes.drop_first(), line_ended: false, ..t }
        } else {
            ParserView { key: t.key + bytes.drop_first(), line_ended: false, ..t }
        };
        assert(reached =~= goal);
    }
}

/// A frame with one header line `k:v` and no body, whose key and value hold
/// no LF, CR, colon or backslash, parses with exactly the pair
/// `(k, v)` decoded: every byte of the line is kept, in order, and the
/// whole input is taken.
pub proof fn lemma_parse_single_header_line(c: StompCommand, k: Seq<u8>, v: Seq<u8>)
    requires
        k.len() > 0,
        forall|i: int| 0 <= i < k.len() ==> ordinary_header_byte(#[trigger] k[i]),
        forall|i: int| 0 <= i < v.len() ==> ordinary_header_byte(#[trigger] v[i]),
        valid_utf8(k),
        valid_utf8(v),
    ensures
        ({
            let input = encode_utf8(command_name(c)) + seq![10u8] + k + seq![58u8] + v + seq![10u8, 10u8, 0u8];
            parse_spec(input) == (
                Ok::<FrameView, ParseError>(FrameView {
                    command: c,
                    header: seq![(decode_utf8(k), decode_utf8(v))],
                    body: Seq::empty(),
                }),
                input.len(),
            )
        }),
{
    let nb = encode_utf8(command_name(c));
    lemma_command_name_bytes(c);
    lemma_command_name_round_trip(c);
    let tail: Seq<u8> = seq![10u8, 10u8, 0u8];
    let after_colon = v + tail;
    let after_key = seq![58u8] + after_colon;
    let after_line = k + after_key;
    let after_name = seq![10u8] + after_line;
    let input = nb + seq![10u8] + k + seq![58u8] + v + tail;
    assert(input =~= nb + after_name);

    let s0 = initial_view();
    lemma_run_command_bytes(s0, nb, after_name);
    let s0a = ParserView { line: s0.line + nb, ..s0 };
    assert(s0a.line =~= nb);
    let s1 = ParserView { stage: Stage::Header, command: c, ..s0a };
    assert(after_name[0] == 10u8);
    assert(step(s0a, 10u8) == Progress::Continue(s1));
    assert(after_name.drop_first() =~= after_line);

    lemma_run_header_bytes(s1, k, after_key);
    let s2 = ParserView { key: s1.key + k, line_ended: false, ..s1 };
    assert(s2.key =~= k);
    assert(after_key[0] == 58u8);
    let s3 = ParserView { colon: true, ..s2 };
    assert(step(s2, 58u8) == Progress::Continue(s3));
    assert(after_key.drop_first() =~= after_colon);

    let s4 = ParserView { value: s3.value + v, line_ended: false, ..s3 };
    assert(s4.value =~= v);
    if v.len() > 0 {
        lemma_run_header_bytes(s3, v, tail);
    } else {
        assert(after_colon =~= tail);
        assert(s4 =~= s3);
    }

    let s5 = ParserView {
        header: s4.header.push((decode_utf8(s4.key), decode_utf8(s4.value))),
        line_ended: true,
        key: Seq::empty(),
        value: Seq::empty(),
        colon: false,
        ..s4
    };
    assert(step(s4, 10u8) == Progress::Continue(s5));
    assert(tail.drop_first() =~= seq![10u8, 0u8]);
    let s6 = ParserView { stage: Stage::Body, ..s5 };
    assert(step(s5, 10u8) == Progress::Continue(s6));
    assert(seq![10u8, 0u8].drop_first() =~= seq![0u8]);
    assert(s6.header =~= seq![(decode_utf8(k), decode_utf8(v))]);
    assert(valid_utf8(s6.body));
    assert(decode_utf8(s6.body) =~= Seq::<char>::empty());
    assert(step(s6, 0u8) == Progress::Finished(body_result(s6)));
    assert(seq![0u8].drop_first() =~= Seq::<u8>::empty());
    assert(run(s6, seq![0u8]) == (body_result(s6), 1nat));
    assert(run(s5, seq![10u8, 0u8]).1 == 2);
    assert(run(s4, tail).1 == 3);
}

/// The wire name of every command is a non-empty run of capital ASCII
/// letters.
pub proof fn lemma_command_name_bytes(c: StompCommand)
    ensures
        encode_utf8(command_name(c)).len() > 0,
        forall|i: int| 0 <= i < encode_utf8(command_name(c)).len()
            ==> 65 <= #[trigger] encode_utf8(command_name(c))[i] <= 90,
{
    reveal_strlit("SEND");
    reveal_strlit("SUBSCRIBE");
    reveal_strlit("UNSUBSCRIBE");
    reveal_strlit("BEGIN");
    reveal_strlit("COMMIT");
    reveal_strlit("ABORT");
    reveal_strlit("ACK");
    reveal_strlit("NACK");
    reveal_strlit("DISCONNECT");
    reveal_strlit("STOMP");
    reveal_strlit("CONNECTED");
    reveal_strlit("MESSAGE");
    reveal_strlit("RECEIPT");
    reveal_strlit("ERROR");
    let name = command_name(c);
    assert(forall|i: int| 0 <= i < name.len() ==> 'A' <= #[trigger] name[i] <= 'Z');
    assert(is_ascii_chars(name));
    is_ascii_chars_encode_utf8(name);
}

} // verus!
