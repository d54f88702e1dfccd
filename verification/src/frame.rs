use crate::escape::{escaped, sanitise_header_text};
use crate::headers::{
    agrees, distinct_keys, key_index, lemma_agrees, lemma_put, lookup, put, same_headers, Header,
};
use crate::misc::{ErrorKind, Fault, StompError};
use crate::number::{decimal, decimal_of};
use crate::parse::{parse_chars, parsed_bytes, text_of};
use crate::text::{chars_of, same_text};
use vstd::prelude::*;
use vstd::string::*;

verus! {

/// The commands a frame can carry: the first three are sent by a client, the
/// other four by a broker.
#[derive(Clone, Copy, Debug, PartialEq, Eq, Structural)]
pub enum Command {
    Connect,
    Send,
    Subscribe,
    Connected,
    Receipt,
    Message,
    Error,
}

/// The command that the first line of a frame names, if it names one.
pub open spec fn command_named(token: Seq<char>) -> Option<Command> {
    if token == "CONNECT"@ {
        Some(Command::Connect)
    } else if token == "SEND"@ {
        Some(Command::Send)
    } else if token == "SUBSCRIBE"@ {
        Some(Command::Subscribe)
    } else if token == "CONNECTED"@ {
        Some(Command::Connected)
    } else if token == "RECEIPT"@ {
        Some(Command::Receipt)
    } else if token == "MESSAGE"@ {
        Some(Command::Message)
    } else if token == "ERROR"@ {
        Some(Command::Error)
    } else {
        None
    }
}

/// Commands and command words stand one for one: the word of a command names
/// that command, and a word names only the command whose word it is. No
/// command word is empty or holds a line feed.
pub proof fn lemma_command_words()
    ensures
        forall|c: Command| command_named(#[trigger] c.token()) == Some(c),
        forall|c: Command, i: int|
            0 <= i < c.token().len() ==> (#[trigger] c.token()[i]) != '\n',
        forall|c: Command| (#[trigger] c.token()).len() > 0,
        forall|word: Seq<char>|
            (#[trigger] command_named(word)) is Some ==> word == command_named(word)->0.token(),
{
    reveal_strlit("CONNECT");
    reveal_strlit("SEND");
    reveal_strlit("SUBSCRIBE");
    reveal_strlit("CONNECTED");
    reveal_strlit("RECEIPT");
    reveal_strlit("MESSAGE");
    reveal_strlit("ERROR");
    assert("CONNECT"@.len() == 7 && "CONNECT"@[0] == 'C');
    assert("SEND"@.len() == 4);
    assert("SUBSCRIBE"@.len() == 9 && "SUBSCRIBE"@[0] == 'S');
    assert("CONNECTED"@.len() == 9 && "CONNECTED"@[0] == 'C');
    assert("RECEIPT"@.len() == 7 && "RECEIPT"@[0] == 'R');
    assert("MESSAGE"@.len() == 7 && "MESSAGE"@[0] == 'M');
    assert("ERROR"@.len() == 5);
    assert forall|c: Command| command_named(#[trigger] c.token()) == Some(c) by {
        match c {
            Command::Connect => {},
            Command::Send => {},
            Command::Subscribe => {},
            Command::Connected => {},
            Command::Receipt => {},
            Command::Message => {},
            Command::Error => {},
        }
    }
}

impl Command {
    /// The word that names this command on the wire.
    pub open spec fn token(self) -> Seq<char> {
        match self {
            Command::Connect => "CONNECT"@,
            Command::Send => "SEND"@,
            Command::Subscribe => "SUBSCRIBE"@,
            Command::Connected => "CONNECTED"@,
            Command::Receipt => "RECEIPT"@,
            Command::Message => "MESSAGE"@,
            Command::Error => "ERROR"@,
        }
    }

    /// The word that names this command on the wire.
    pub fn to_str(&self) -> (word: &'static str)
        ensures
            word@ == self.token(),
    {
        match self {
            Command::Connect => "CONNECT",
            Command::Send => "SEND",
            Command::Subscribe => "SUBSCRIBE",
            Command::Receipt => "RECEIPT",
            Command::Message => "MESSAGE",
            Command::Connected => "CONNECTED",
            Command::Error => "ERROR",
        }
    }

    /// Reads a command word. Any other text is refused as a malformed command,
    /// with the text in the diagnostic.
    pub fn parse(s: &str) -> (out: Result<Command, StompError>)
        ensures
            match out {
                Ok(c) => command_named(s@) == Some(c),
                Err(e) => command_named(s@).is_none() && e@ == unknown_command(s@),
            },
    {
        let word = chars_of(s);
        if same_text(&word, "CONNECT") {
            Ok(Command::Connect)
        } else if same_text(&word, "SEND") {
            Ok(Command::Send)
        } else if same_text(&word, "SUBSCRIBE") {
            Ok(Command::Subscribe)
        } else if same_text(&word, "CONNECTED") {
            Ok(Command::Connected)
        } else if same_text(&word, "RECEIPT") {
            Ok(Command::Receipt)
        } else if same_text(&word, "MESSAGE") {
            Ok(Command::Message)
        } else if same_text(&word, "ERROR") {
            Ok(Command::Error)
        } else {
            let mut detail = String::from_str("Unknown command: ");
            detail.append(s);
            Err(StompError::MalformedCommand(detail))
        }
    }
}

/// The failure that reports `token` as no command.
pub open spec fn unknown_command(token: Seq<char>) -> Fault {
    Fault { kind: ErrorKind::MalformedCommand, detail: "Unknown command: "@ + token }
}

/// A frame as contracts speak of it. The headers stand in the order in which
/// their keys were first added, which is the order in which they are written.
pub struct FrameView {
    pub command: Command,
    pub headers: Seq<Header>,
    pub body: Seq<char>,
}

/// The line that writes one header.
pub open spec fn header_line(header: Header) -> Seq<char> {
    escaped(header.0) + seq![':'] + escaped(header.1) + seq!['\n']
}

/// The lines that write the headers, one after the other.
pub open spec fn header_block(headers: Seq<Header>) -> Seq<char>
    decreases headers.len(),
{
    if headers.len() == 0 {
        Seq::empty()
    } else {
        header_line(headers[0]) + header_block(headers.skip(1))
    }
}

/// A frame on the wire: the command word and a line feed, a line for each
/// header, an empty line, the body, and a null character.
pub open spec fn wire(frame: FrameView) -> Seq<char> {
    frame.command.token() + seq!['\n'] + header_block(frame.headers) + seq!['\n'] + frame.body
        + seq!['\0']
}

/// One unit of the protocol: a command, headers and a body.
#[derive(Debug)]
pub struct Frame {
    pub(crate) command: Command,
    pub(crate) headers: Vec<(String, String)>,
    pub(crate) body: String,
}

impl View for Frame {
    type V = FrameView;

    closed spec fn view(&self) -> FrameView {
        FrameView {
            command: self.command,
            headers: self.headers@.map_values(|h: (String, String)| (h.0@, h.1@)),
            body: self.body@,
        }
    }
}

impl Frame {
    /// No two headers of a frame have the same key.
    pub open spec fn well_formed(&self) -> bool {
        distinct_keys(self@.headers)
    }

    /// A frame with the given command and body, and one header,
    /// `content-length`, that gives the number of bytes of the body.
    pub fn new(cmd: Command, bdy: &str) -> (frame: Frame)
        ensures
            frame@.command == cmd,
            frame@.body == bdy@,
            frame@.headers == seq![("content-length"@, decimal(bdy.spec_bytes().len()))],
            frame.well_formed(),
    {
        let len: usize = bdy.as_bytes().len();
        let mut headers: Vec<(String, String)> = Vec::new();
        headers.push((String::from_str("content-length"), decimal_of(len as u64)));
        let frame = Frame { command: cmd, headers, body: String::from_str(bdy) };
        assert(frame.headers@.len() == 1);
        assert(frame@.headers[0] == ("content-length"@, decimal(bdy.spec_bytes().len())));
        assert(frame@.headers =~= seq![("content-length"@, decimal(bdy.spec_bytes().len()))]);
        frame
    }

    /// The command of this frame.
    pub fn command(&self) -> (cmd: Command)
        ensures
            cmd == self@.command,
    {
        self.command
    }

    /// The body of this frame.
    pub fn body(&self) -> (body: &String)
        ensures
            body@ == self@.body,
    {
        &self.body
    }

    /// Gives the frame another body. The headers stay as they are,
    /// `content-length` too.
    pub fn set_body(&mut self, body: String)
        ensures
            final(self)@ == (FrameView { body: body@, ..old(self)@ }),
            final(self).well_formed() == old(self).well_formed(),
    {
        self.body = body;
    }

    /// The headers of this frame, key and value, in the order in which they
    /// are written.
    pub fn headers(&self) -> (headers: &Vec<(String, String)>)
        ensures
            headers@.len() == self@.headers.len(),
            forall|i: int|
                0 <= i < headers@.len() ==> (#[trigger] headers@[i]).0@ == self@.headers[i].0
                    && headers@[i].1@ == self@.headers[i].1,
    {
        &self.headers
    }

    /// The position of the header with the key `k`; the number of headers
    /// where there is none.
    fn position(&self, k: &str) -> (at: usize)
        ensures
            at == key_index(self@.headers, k@, 0),
            at <= self@.headers.len(),
            self@.headers.len() == self.headers@.len(),
    {
        let key = chars_of(k);
        let mut i: usize = 0;
        while i < self.headers.len()
            invariant
                key@ == k@,
                i <= self.headers@.len(),
                self@.headers.len() == self.headers@.len(),
                key_index(self@.headers, k@, i as int) == key_index(self@.headers, k@, 0),
            decreases self.headers@.len() - i,
        {
            if same_text(&key, self.headers[i].0.as_str()) {
                return i;
            }
            i += 1;
        }
        i
    }

    /// Gives the header `k` the value `v`. A key that the frame has keeps its
    /// place among the headers; a new key is added after the others.
    pub fn add_header(&mut self, k: &str, v: &str)
        requires
            old(self).well_formed(),
        ensures
            final(self)@.command == old(self)@.command,
            final(self)@.body == old(self)@.body,
            final(self)@.headers == put(old(self)@.headers, k@, v@),
            final(self).well_formed(),
    {
        proof {
            lemma_put(self@.headers, k@, v@);
        }
        let at: usize = self.position(k);
        let ghost before = self@.headers;
        if at < self.headers.len() {
            self.headers.set(at, (String::from_str(k), String::from_str(v)));
            assert(self@.headers =~= before.update(at as int, (k@, v@)));
        } else {
            self.headers.push((String::from_str(k), String::from_str(v)));
            assert(self@.headers =~= before.push((k@, v@)));
        }
    }

    /// The value of the header `k`, if the frame has that header.
    pub fn get_header(&self, k: &str) -> (value: Option<&String>)
        ensures
            match value {
                Some(v) => lookup(self@.headers, k@) == Some(v@),
                None => lookup(self@.headers, k@).is_none(),
            },
    {
        let at: usize = self.position(k);
        if at < self.headers.len() {
            Some(&self.headers[at].1)
        } else {
            None
        }
    }

    /// Reads the frame that a buffer holds. A buffer that is not valid UTF-8
    /// holds no text, so no line, and is refused as too short.
    pub fn parse(bytes: &[u8]) -> (out: Result<Frame, StompError>)
        ensures
            match out {
                Ok(frame) => parsed_bytes(bytes@) == Ok::<FrameView, Fault>(frame@)
                    && frame.well_formed(),
                Err(e) => parsed_bytes(bytes@) == Err::<FrameView, Fault>(e@),
            },
    {
        match text_of(bytes) {
            Some(text) => {
                proof {
                    vstd::utf8::encode_utf8_decode_utf8(text@);
                }
                parse_chars(&chars_of(text))
            },
            None => Err(StompError::MalformedFrame(String::from_str("Frame is not valid UTF-8"))),
        }
    }

    /// This frame as it is written to the stream.
    pub fn to_string(&self) -> (out: String)
        ensures
            out@ == wire(self@),
    {
        let mut out = String::from_str(self.command.to_str());
        out.push('\n');
        let ghost head = out@;
        let mut i: usize = 0;
        assert(self@.headers.skip(0) =~= self@.headers);
        assert(head + Seq::<char>::empty() =~= head);
        let ghost mut block = Seq::<char>::empty();
        while i < self.headers.len()
            invariant
                i <= self.headers@.len(),
                self@.headers.len() == self.headers@.len(),
                out@ == head + block,
                block + header_block(self@.headers.skip(i as int)) == header_block(self@.headers),
            decreases self.headers@.len() - i,
        {
            let key = sanitise_header_text(&self.headers[i].0);
            let value = sanitise_header_text(&self.headers[i].1);
            out.append(key.as_str());
            out.push(':');
            out.append(value.as_str());
            out.push('\n');
            proof {
                let rest = self@.headers.skip(i as int);
                let line = header_line(rest[0]);
                assert(rest.skip(1) =~= self@.headers.skip(i + 1));
                assert(out@ =~= head + (block + line));
                assert((block + line) + header_block(rest.skip(1)) =~= block + (line
                    + header_block(rest.skip(1))));
                block = block + line;
            }
            i += 1;
        }
        assert(self@.headers.skip(self@.headers.len() as int) =~= Seq::<Header>::empty());
        assert(block + Seq::<char>::empty() =~= block);
        out.push('\n');
        out.append(self.body.as_str());
        out.push('\0');
        out
    }
}

impl Frame {
    /// Whether every header of this frame has the same value in `other`.
    fn agrees_with(&self, other: &Frame) -> (yes: bool)
        ensures
            yes == agrees(self@.headers, other@.headers),
    {
        let mut i: usize = 0;
        while i < self.headers.len()
            invariant
                i <= self.headers@.len(),
                self@.headers.len() == self.headers@.len(),
                forall|j: int|
                    0 <= j < i ==> lookup(other@.headers, (#[trigger] self@.headers[j]).0)
                        == lookup(self@.headers, self@.headers[j].0),
            decreases self.headers@.len() - i,
        {
            let key = self.headers[i].0.as_str();
            assert(key@ == self@.headers[i as int].0);
            let same = match (self.get_header(key), other.get_header(key)) {
                (Some(mine), Some(theirs)) => same_text(&chars_of(mine.as_str()), theirs.as_str()),
                (None, None) => true,
                _ => false,
            };
            if !same {
                return false;
            }
            i += 1;
        }
        true
    }
}

impl PartialEq for Frame {
    /// Two frames are equal where they have the same command, the same body,
    /// and the same value for every header key, in whatever order.
    fn eq(&self, other: &Frame) -> (same: bool) {
        proof {
            lemma_agrees(self@.headers, other@.headers);
        }
        self.command == other.command && same_text(
            &chars_of(self.body.as_str()),
            other.body.as_str(),
        ) && self.agrees_with(other) && other.agrees_with(self)
    }
}

impl Eq for Frame {

}

impl vstd::std_specs::cmp::PartialEqSpecImpl for Frame {
    open spec fn obeys_eq_spec() -> bool {
        true
    }

    open spec fn eq_spec(&self, other: &Frame) -> bool {
        &&& self@.command == other@.command
        &&& self@.body == other@.body
        &&& same_headers(self@.headers, other@.headers)
    }
}

impl Clone for Frame {
    fn clone(&self) -> (copy: Frame)
        ensures
            copy@ == self@,
            copy.well_formed() == self.well_formed(),
    {
        let mut headers: Vec<(String, String)> = Vec::new();
        let mut i: usize = 0;
        while i < self.headers.len()
            invariant
                i <= self.headers@.len(),
                headers@.len() == i,
                forall|j: int|
                    0 <= j < i ==> (#[trigger] headers@[j]).0@ == self.headers@[j].0@
                        && headers@[j].1@ == self.headers@[j].1@,
            decreases self.headers@.len() - i,
        {
            headers.push((self.headers[i].0.clone(), self.headers[i].1.clone()));
            i += 1;
        }
        let copy = Frame { command: self.command, headers, body: self.body.clone() };
        assert(copy@.headers =~= self@.headers);
        copy
    }
}

} // verus!
