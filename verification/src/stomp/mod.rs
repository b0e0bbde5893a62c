//! STOMP frames: commands, headers and whole frames, with their wire text.
use vstd::prelude::*;
use vstd::string::*;
use vstd::utf8::*;

pub mod parse;
pub mod text;

use text::{decimal, decimal_text, decode_text, text_eq};

verus! {

broadcast use vstd::utf8::encode_utf8_decode_utf8, vstd::utf8::encode_utf8_valid_utf8;

/// The commands of the STOMP protocol: first those a client sends, then
/// those a server sends.
#[derive(Debug, Clone, Copy, PartialEq, Eq, Structural)]
pub enum StompCommand {
    Stomp,
    Send,
    Subscribe,
    Unsubscribe,
    Ack,
    Nack,
    Begin,
    Commit,
    Abort,
    Disconnect,
    Connected,
    Message,
    Receipt,
    Error,
}

/// The name under which a command goes on the wire.
pub open spec fn command_name(c: StompCommand) -> Seq<char> {
    match c {
        StompCommand::Send => "SEND"@,
        StompCommand::Subscribe => "SUBSCRIBE"@,
        StompCommand::Unsubscribe => "UNSUBSCRIBE"@,
        StompCommand::Begin => "BEGIN"@,
        StompCommand::Commit => "COMMIT"@,
        StompCommand::Abort => "ABORT"@,
        StompCommand::Ack => "ACK"@,
        StompCommand::Nack => "NACK"@,
        StompCommand::Disconnect => "DISCONNECT"@,
        StompCommand::Stomp => "STOMP"@,
        StompCommand::Connected => "CONNECTED"@,
        StompCommand::Message => "MESSAGE"@,
        StompCommand::Receipt => "RECEIPT"@,
        StompCommand::Error => "ERROR"@,
    }
}

/// The command that a name stands for; `CONNECT` is another name of `STOMP`.
pub open spec fn command_from_text(s: Seq<char>) -> Option<StompCommand> {
    if s == "SEND"@ { Some(StompCommand::Send) }
    else if s == "SUBSCRIBE"@ { Some(StompCommand::Subscribe) }
    else if s == "UNSUBSCRIBE"@ { Some(StompCommand::Unsubscribe) }
    else if s == "BEGIN"@ { Some(StompCommand::Begin) }
    else if s == "COMMIT"@ { Some(StompCommand::Commit) }
    else if s == "ABORT"@ { Some(StompCommand::Abort) }
    else if s == "ACK"@ { Some(StompCommand::Ack) }
    else if s == "NACK"@ { Some(StompCommand::Nack) }
    else if s == "DISCONNECT"@ { Some(StompCommand::Disconnect) }
    else if s == "STOMP"@ { Some(StompCommand::Stomp) }
    else if s == "CONNECT"@ { Some(StompCommand::Stomp) }
    else if s == "CONNECTED"@ { Some(StompCommand::Connected) }
    else if s == "MESSAGE"@ { Some(StompCommand::Message) }
    else if s == "RECEIPT"@ { Some(StompCommand::Receipt) }
    else if s == "ERROR"@ { Some(StompCommand::Error) }
    else { None }
}

/// The command that a byte string names: bytes that are not UTF-8 name none.
pub open spec fn command_from_bytes(b: Seq<u8>) -> Option<StompCommand> {
    if valid_utf8(b) { command_from_text(decode_utf8(b)) } else { None }
}

impl StompCommand {
    /// The command named by `string`, if any.
    pub fn from_string(string: &str) -> (r: Option<StompCommand>)
        ensures
            r == command_from_text(string@),
    {
        if text_eq(string, "SEND") { Some(StompCommand::Send) }
        else if text_eq(string, "SUBSCRIBE") { Some(StompCommand::Subscribe) }
        else if text_eq(string, "UNSUBSCRIBE") { Some(StompCommand::Unsubscribe) }
        else if text_eq(string, "BEGIN") { Some(StompCommand::Begin) }
        else if text_eq(string, "COMMIT") { Some(StompCommand::Commit) }
        else if text_eq(string, "ABORT") { Some(StompCommand::Abort) }
        else if text_eq(string, "ACK") { Some(StompCommand::Ack) }
        else if text_eq(string, "NACK") { Some(StompCommand::Nack) }
        else if text_eq(string, "DISCONNECT") { Some(StompCommand::Disconnect) }
        else if text_eq(string, "STOMP") { Some(StompCommand::Stomp) }
        else if text_eq(string, "CONNECT") { Some(StompCommand::Stomp) }
        else if text_eq(string, "CONNECTED") { Some(StompCommand::Connected) }
        else if text_eq(string, "MESSAGE") { Some(StompCommand::Message) }
        else if text_eq(string, "RECEIPT") { Some(StompCommand::Receipt) }
        else if text_eq(string, "ERROR") { Some(StompCommand::Error) }
        else { None }
    }

    /// The wire name of the command.
    pub fn to_string(&self) -> (r: &'static str)
        ensures
            r@ == command_name(*self),
    {
        match self {
            StompCommand::Send => "SEND",
            StompCommand::Subscribe => "SUBSCRIBE",
            StompCommand::Unsubscribe => "UNSUBSCRIBE",
            StompCommand::Begin => "BEGIN",
            StompCommand::Commit => "COMMIT",
            StompCommand::Abort => "ABORT",
            StompCommand::Ack => "ACK",
            StompCommand::Nack => "NACK",
            StompCommand::Disconnect => "DISCONNECT",
            StompCommand::Stomp => "STOMP",
            StompCommand::Connected => "CONNECTED",
            StompCommand::Message => "MESSAGE",
            StompCommand::Receipt => "RECEIPT",
            StompCommand::Error => "ERROR",
        }
    }

    /// The command named by `bytes` read as UTF-8; bytes that are not UTF-8
    /// name no command.
    pub fn from_bytes(bytes: &[u8]) -> (r: Option<StompCommand>)
        ensures
            r == command_from_bytes(bytes@),
    {
        match decode_text(bytes) {
            Some(s) => StompCommand::from_string(s.as_str()),
            None => None,
        }
    }
}

/// Reading a command's wire name back gives the command, from text and from
/// its UTF-8 bytes alike.
pub proof fn lemma_command_name_round_trip(c: StompCommand)
    ensures
        command_from_text(command_name(c)) == Some(c),
        command_from_bytes(encode_utf8(command_name(c))) == Some(c),
{
    reveal_strlit("SEND");
    reveal_strlit("SUBSCRIBE");
    reveal_strlit("UNSUBSCRIBE");
    reveal_strlit("BEGIN");
    reveal_strlit("COMMIT");
    reveal_strlit("ABORT");
    reveal_strlit("ACK");
    reveal_strlit("NACK");
    reveal_strlit("DISCONNECT");
    reveal_strlit("STOMP");
    reveal_strlit("CONNECT");
    reveal_strlit("CONNECTED");
    reveal_strlit("MESSAGE");
    reveal_strlit("RECEIPT");
    reveal_strlit("ERROR");
    assert(decode_utf8(encode_utf8(command_name(c))) == command_name(c));
}

/// The pairs of a header as plain text, in the order they were stored.
pub type HeaderView = Seq<(Seq<char>, Seq<char>)>;

/// The value of the first pair whose key is `key`.
pub open spec fn header_lookup(h: HeaderView, key: Seq<char>) -> Option<Seq<char>>
    decreases h.len(),
{
    if h.len() == 0 {
        None
    } else if h[0].0 == key {
        Some(h[0].1)
    } else {
        header_lookup(h.drop_first(), key)
    }
}

/// Whether some pair has the key `key`.
pub open spec fn header_has(h: HeaderView, key: Seq<char>) -> bool {
    exists|i: int| 0 <= i < h.len() && #[trigger] h[i].0 == key
}

/// The header as it goes on the wire: each pair as `key:value` and a CR LF.
pub open spec fn header_text(h: HeaderView) -> Seq<char>
    decreases h.len(),
{
    if h.len() == 0 {
        Seq::empty()
    } else {
        header_text(h.drop_last()) + h.last().0 + ":"@ + h.last().1 + "\r\n"@
    }
}

/// The header of a frame: key/value pairs in the order they were stored.
/// A key may occur more than once; the first occurrence is the one read.
#[derive(Debug)]
pub struct Header {
    pub store: Vec<(String, String)>,
}

impl View for Header {
    type V = HeaderView;

    open spec fn view(&self) -> HeaderView {
        self.store@.map_values(|p: (String, String)| (p.0@, p.1@))
    }
}

impl Header {
    /// A header with no pairs.
    pub fn new() -> (r: Header)
        ensures
            r@ == Seq::<(Seq<char>, Seq<char>)>::empty(),
    {
        let r = Header { store: Vec::new() };
        assert(r@ =~= Seq::<(Seq<char>, Seq<char>)>::empty());
        r
    }

    /// The header on the wire: `key:value` and a CR LF for each pair.
    pub fn to_string(&self) -> (r: String)
        ensures
            r@ == header_text(self@),
    {
        let mut string = String::new();
        let n = self.store.len();
        let mut i: usize = 0;
        proof {
            reveal_strlit(":");
            reveal_strlit("\r\n");
            assert(self@.take(0) =~= Seq::<(Seq<char>, Seq<char>)>::empty());
        }
        while i < n
            invariant
                n == self.store@.len(),
                n == self@.len(),
                0 <= i <= n,
                string@ == header_text(self@.take(i as int)),
            decreases n - i,
        {
            let pair = &self.store[i];
            string.append(pair.0.as_str());
            string.append(":");
            string.append(pair.1.as_str());
            string.append("\r\n");
            proof {
                let t = self@.take(i + 1);
                assert(t.drop_last() =~= self@.take(i as int));
                assert(t.last() == self@[i as int]);
                assert(string@ =~= header_text(t));
            }
            i = i + 1;
        }
        assert(self@.take(n as int) =~= self@);
        string
    }

    /// Stores the pair `key`/`value` after those already there.
    pub fn set(&mut self, key: &str, value: &str)
        ensures
            final(self)@ == old(self)@.push((key@, value@)),
    {
        self.store.push((key.to_owned(), value.to_owned()));
        assert(self@ =~= old(self)@.push((key@, value@)));
    }

    /// The value of the first pair whose key is `key`.
    pub fn get(&self, key: &str) -> (r: Option<&String>)
        ensures
            match r {
                Some(v) => header_lookup(self@, key@) == Some(v@),
                None => header_lookup(self@, key@) is None,
            },
    {
        let n = self.store.len();
        let mut i: usize = 0;
        assert(self@.skip(0) =~= self@);
        while i < n
            invariant
                n == self.store@.len(),
                n == self@.len(),
                0 <= i <= n,
                header_lookup(self@, key@) == header_lookup(self@.skip(i as int), key@),
            decreases n - i,
        {
            let pair = &self.store[i];
            proof {
                assert(self@.skip(i as int)[0] == self@[i as int]);
                assert(self@.skip(i as int).drop_first() =~= self@.skip(i + 1));
            }
            if text_eq(pair.0.as_str(), key) {
                return Some(&pair.1);
            }
            i = i + 1;
        }
        None
    }

    /// Whether some pair has the key `key`.
    pub fn contains_key(&self, key: &str) -> (r: bool)
        ensures
            r == header_has(self@, key@),
    {
        let n = self.store.len();
        let mut i: usize = 0;
        while i < n
            invariant
                n == self.store@.len(),
                n == self@.len(),
                0 <= i <= n,
                forall|j: int| 0 <= j < i ==> self@[j].0 != key@,
            decreases n - i,
        {
            let pair = &self.store[i];
            assert(self@[i as int].0 == pair.0@);
            if text_eq(pair.0.as_str(), key) {
                return true;
            }
            i = i + 1;
        }
        false
    }
}

/// A header holds a key exactly when looking the key up finds a value.
pub proof fn lemma_has_iff_lookup(h: HeaderView, key: Seq<char>)
    ensures
        header_has(h, key) <==> header_lookup(h, key) is Some,
    decreases h.len(),
{
    if h.len() > 0 {
        lemma_has_iff_lookup(h.drop_first(), key);
        if header_has(h, key) && h[0].0 != key {
            let i = choose|i: int| 0 <= i < h.len() && #[trigger] h[i].0 == key;
            assert(h.drop_first()[i - 1].0 == key);
        }
        if header_has(h.drop_first(), key) {
            let i = choose|i: int| 0 <= i < h.len() - 1 && #[trigger] h.drop_first()[i].0 == key;
            assert(h[i + 1].0 == key);
        }
    }
}

/// Storing a pair leaves every other key's value as it was, and gives `key`
/// the new value only if it had none: the first pair stored for a key wins.
pub proof fn lemma_set_then_lookup(h: HeaderView, key: Seq<char>, value: Seq<char>, other: Seq<char>)
    ensures
        header_lookup(h.push((key, value)), other) == if other == key && header_lookup(h, key) is None {
            Some(value)
        } else {
            header_lookup(h, other)
        },
    decreases h.len(),
{
    if h.len() > 0 {
        assert(h.push((key, value)).drop_first() =~= h.drop_first().push((key, value)));
        lemma_set_then_lookup(h.drop_first(), key, value, other);
    } else {
        assert(h.push((key, value)).drop_first() =~= h);
    }
}

/// A frame as plain values: its command, header pairs and body text.
#[verifier::ext_equal]
pub struct FrameView {
    pub command: StompCommand,
    pub header: HeaderView,
    pub body: Seq<char>,
}

/// A frame as it goes on the wire: the command name, a CR LF, the header,
/// a blank line written as two CR LF, the body and a NUL.
pub open spec fn frame_text(f: FrameView) -> Seq<char> {
    command_name(f.command) + "\r\n"@ + header_text(f.header) + "\r\n\r\n"@ + f.body + "\0"@
}

/// A STOMP frame.
#[derive(Debug)]
pub struct Frame {
    pub command: StompCommand,
    pub header: Header,
    pub body: String,
}

impl View for Frame {
    type V = FrameView;

    open spec fn view(&self) -> FrameView {
        FrameView { command: self.command, header: self.header@, body: self.body@ }
    }
}

impl Frame {
    /// An `ERROR` frame with no header and no body.
    pub fn new() -> (r: Frame)
        ensures
            r@ == (FrameView { command: StompCommand::Error, header: Seq::empty(), body: Seq::empty() }),
    {
        Frame { command: StompCommand::Error, header: Header::new(), body: String::new() }
    }

    /// A frame with command `c`, no header and no body.
    pub fn from_command(c: StompCommand) -> (r: Frame)
        ensures
            r@ == (FrameView { command: c, header: Seq::empty(), body: Seq::empty() }),
    {
        Frame { command: c, header: Header::new(), body: String::new() }
    }

    /// A frame with command `c` and body `b`, whose header holds only a
    /// `content-length` pair: the length of `b` in bytes, in decimal.
    pub fn with_body(c: StompCommand, b: &str) -> (r: Frame)
        ensures
            r@ == (FrameView {
                command: c,
                header: seq![("content-length"@, decimal(encode_utf8(b@).len()))],
                body: b@,
            }),
    {
        let mut f = Frame { command: c, header: Header::new(), body: b.to_owned() };
        let length = decimal_text(b.as_bytes().len());
        f.header.set("content-length", length.as_str());
        assert(f.header@ =~= seq![("content-length"@, decimal(encode_utf8(b@).len()))]);
        f
    }

    /// The frame as wire text.
    pub fn to_string(&self) -> (r: String)
        ensures
            r@ == frame_text(self@),
    {
        let h = self.header.to_string();
        let mut string = String::new();
        string.append(self.command.to_string());
        string.append("\r\n");
        string.append(h.as_str());
        string.append("\r\n\r\n");
        string.append(self.body.as_str());
        string.append("\0");
        string
    }

    /// The frame as wire bytes: the UTF-8 encoding of its wire text.
    pub fn to_bytes(&self) -> (r: Vec<u8>)
        ensures
            r@ == encode_utf8(frame_text(self@)),
    {
        self.to_string().as_str().as_bytes_vec()
    }
}

/// Every frame's wire text begins with its command's name and ends with a NUL.
pub proof fn lemma_frame_text_delimited(f: FrameView)
    ensures
        frame_text(f).subrange(0, command_name(f.command).len() as int) == command_name(f.command),
        frame_text(f).last() == '\0',
{
    reveal_strlit("\0");
    let t = frame_text(f);
    assert(t.subrange(0, command_name(f.command).len() as int) =~= command_name(f.command));
}

/// One header pair on the wire: the key, a colon, the value and a CR LF.
pub open spec fn pair_line(p: (Seq<char>, Seq<char>)) -> Seq<char> {
    p.0 + ":"@ + p.1 + "\r\n"@
}

/// A header with no pairs writes nothing, and storing a pair last appends
/// its `key:value` line to the header's text, whatever the header held.
pub proof fn lemma_header_text_appends(h: HeaderView, p: (Seq<char>, Seq<char>))
    ensures
        header_text(Seq::empty()) == Seq::<char>::empty(),
        header_text(h.push(p)) == header_text(h) + p.0 + seq![':'] + p.1 + seq!['\r', '\n'],
{
    reveal_strlit(":");
    reveal_strlit("\r\n");
    assert(h.push(p).drop_last() =~= h);
}

/// The text of two headers one after the other is the text of the first
/// followed by the text of the second.
pub proof fn lemma_header_text_concat(h1: HeaderView, h2: HeaderView)
    ensures
        header_text(h1 + h2) == header_text(h1) + header_text(h2),
    decreases h2.len(),
{
    if h2.len() == 0 {
        assert(h1 + h2 =~= h1);
    } else {
        lemma_header_text_concat(h1, h2.drop_last());
        assert((h1 + h2).drop_last() =~= h1 + h2.drop_last());
        assert((h1 + h2).last() == h2.last());
    }
}

/// The length of a header's text: for each pair, its key and value and three
/// more characters.
pub open spec fn header_text_len(h: HeaderView) -> nat
    decreases h.len(),
{
    if h.len() == 0 {
        0
    } else {
        header_text_len(h.drop_last()) + h.last().0.len() + h.last().1.len() + 3
    }
}

/// A header's text is as long as all its keys and values together, plus
/// three characters for each pair.
pub proof fn lemma_header_text_len(h: HeaderView)
    ensures
        header_text(h).len() == header_text_len(h),
    decreases h.len(),
{
    reveal_strlit(":");
    reveal_strlit("\r\n");
    if h.len() > 0 {
        lemma_header_text_len(h.drop_last());
    }
}

/// Every pair of a frame's header goes on the wire, in order: the line of
/// pair `i` stands right after the command line and the lines of the pairs
/// before it; the text ends with the blank line, the body and a NUL; and the
/// text is as long as all of its parts together.
pub proof fn lemma_frame_text_holds_every_pair(f: FrameView, i: int)
    requires
        0 <= i < f.header.len(),
    ensures
        ({
            let a = (command_name(f.command).len() + 2 + header_text(f.header.take(i)).len()) as int;
            frame_text(f).subrange(a, a + pair_line(f.header[i]).len()) == pair_line(f.header[i])
        }),
        frame_text(f).len() == command_name(f.command).len() + 2 + header_text_len(f.header) + 4
            + f.body.len() + 1,
        frame_text(f).subrange(frame_text(f).len() - (f.body.len() + 5), frame_text(f).len() as int)
            == seq!['\r', '\n', '\r', '\n'] + f.body + seq!['\0'],
{
    reveal_strlit(":");
    reveal_strlit("\r\n");
    reveal_strlit("\r\n\r\n");
    reveal_strlit("\0");
    let h = f.header;
    let before = h.take(i);
    let after = h.skip(i + 1);
    assert(h =~= before.push(h[i]) + after);
    lemma_header_text_concat(before.push(h[i]), after);
    lemma_header_text_appends(before, h[i]);
    lemma_header_text_len(h);
    let t = frame_text(f);
    let name = command_name(f.command);
    let line = pair_line(h[i]);
    assert(header_text(before.push(h[i])) =~= header_text(before) + line);
    assert(header_text(h) =~= header_text(before) + line + header_text(after));
    assert(t =~= name + "\r\n"@ + header_text(before) + line + header_text(after) + "\r\n\r\n"@ + f.body + "\0"@);
    let a = (name.len() + 2 + header_text(before).len()) as int;
    assert(t.subrange(a, a + line.len()) =~= line);
    assert(t.subrange(t.len() - (f.body.len() + 5), t.len() as int) =~= seq!['\r', '\n', '\r', '\n'] + f.body + seq!['\0']);
}

} // verus!
