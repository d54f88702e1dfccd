use crate::frame::{wire, Command, Frame, FrameView};
use crate::headers::{distinct_keys, lemma_key_index_is, lookup, put, same_headers};
use crate::number::decimal;
use vstd::prelude::*;
use vstd::string::*;

verus! {

/// A message for a destination, or one that came from it: a frame and the
/// means to read and set its headers.
#[derive(Debug)]
pub struct Message {
    pub(crate) frame: Frame,
}

impl View for Message {
    type V = FrameView;

    closed spec fn view(&self) -> FrameView {
        self.frame@
    }
}

/// The frame of a new message: a SEND frame with the body, the length of the
/// body in bytes under `content-length`, and the destination.
pub open spec fn outgoing(destination: Seq<char>, body: Seq<char>, length: nat) -> FrameView {
    FrameView {
        command: Command::Send,
        headers: seq![("content-length"@, decimal(length)), ("destination"@, destination)],
        body,
    }
}

impl Message {
    /// No two headers of the message have the same key.
    pub open spec fn well_formed(&self) -> bool {
        distinct_keys(self@.headers)
    }

    /// A message with the given body for the given destination.
    pub fn new(destination: &str, body: &str) -> (message: Message)
        ensures
            message@ == outgoing(destination@, body@, body.spec_bytes().len()),
            message.well_formed(),
    {
        let mut frame = Frame::new(Command::Send, body);
        proof {
            reveal_strlit("content-length");
            reveal_strlit("destination");
            assert("content-length"@ != "destination"@) by {
                assert("content-length"@[0] == 'c');
                assert("destination"@[0] == 'd');
            }
            lemma_key_index_is(frame@.headers, "destination"@, 0, 1);
        }
        frame.add_header("destination", destination);
        assert(frame@.headers =~= outgoing(destination@, body@, body.spec_bytes().len()).headers);
        Message { frame }
    }

    /// The message that a frame carries.
    pub fn from_frame(frame: Frame) -> (message: Message)
        ensures
            message@ == frame@,
            message.well_formed() == frame.well_formed(),
    {
        Message { frame }
    }

    /// The frame of this message.
    pub fn frame(&self) -> (frame: &Frame)
        ensures
            frame@ == self@,
            frame.well_formed() == self.well_formed(),
    {
        &self.frame
    }

    /// Gives the header `k` the value `v`, as `Frame::add_header` does.
    pub fn add_header(&mut self, k: &str, v: &str)
        requires
            old(self).well_formed(),
        ensures
            final(self)@.command == old(self)@.command,
            final(self)@.body == old(self)@.body,
            final(self)@.headers == put(old(self)@.headers, k@, v@),
            final(self).well_formed(),
    {
        self.frame.add_header(k, v);
    }

    /// The value of the header `k`, if the message has that header.
    pub fn get_header(&self, k: &str) -> (value: Option<&String>)
        ensures
            match value {
                Some(v) => lookup(self@.headers, k@) == Some(v@),
                None => lookup(self@.headers, k@).is_none(),
            },
    {
        self.frame.get_header(k)
    }

    /// This message as it is written to the stream.
    pub fn to_string(&self) -> (out: String)
        ensures
            out@ == wire(self@),
    {
        self.frame.to_string()
    }
}

impl PartialEq for Message {
    /// Two messages are equal where their frames are.
    fn eq(&self, other: &Message) -> (same: bool) {
        self.frame == other.frame
    }
}

impl Eq for Message {

}

impl vstd::std_specs::cmp::PartialEqSpecImpl for Message {
    open spec fn obeys_eq_spec() -> bool {
        true
    }

    open spec fn eq_spec(&self, other: &Message) -> bool {
        &&& self@.command == other@.command
        &&& self@.body == other@.body
        &&& same_headers(self@.headers, other@.headers)
    }
}

impl Clone for Message {
    fn clone(&self) -> (copy: Message)
        ensures
            copy@ == self@,
            copy.well_formed() == self.well_formed(),
    {
        Message { frame: self.frame.clone() }
    }
}

} // verus!
