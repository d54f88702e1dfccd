use crate::frame::{wire, Command, Frame, FrameView};
use crate::headers::{distinct_keys, lemma_key_index_is, lookup, put};
use crate::message::Message;
use crate::misc::{ErrorKind, Fault, StompError};
use crate::number::{decimal, decimal_of, lemma_parse_decimal, parse_decimal, read_decimal};
use crate::roundtrip::{lemma_round_trip_modulo_length, wire_safe};
use crate::parse::{lemma_empty_text, parsed, parsed_bytes};
use crate::text::{chars_of, same_text};
use vstd::prelude::*;
use vstd::string::*;
use vstd::utf8::encode_utf8;

verus! {

/// Where a connection stands in its handshake with the broker.
#[derive(Clone, Copy, Debug, PartialEq, Eq, Structural)]
pub enum State {
    /// The stream is not open.
    Disconnected,
    /// CONNECT was sent and the broker has not answered yet.
    AwaitingConnected,
    /// The broker answered with CONNECTED.
    Connected,
    /// The broker answered with anything else. There is no way on from here.
    Failed,
}

/// A registration for the messages of one destination.
pub(crate) struct Subscription<C> {
    pub(crate) id: u64,
    pub(crate) name: String,
    pub(crate) callback: C,
}

/// A subscription as contracts speak of it.
pub struct Entry<C> {
    pub id: nat,
    pub name: Seq<char>,
    pub callback: C,
}

/// A connection as contracts speak of it: its state, its subscriptions in
/// the order in which they were made, and the id that the next one gets.
pub struct ConnectionView<C> {
    pub state: State,
    pub subscriptions: Seq<Entry<C>>,
    pub next_id: nat,
}

/// The client's side of one session with a broker: the handshake, the table
/// of subscriptions, and what to make of each frame that the broker sends.
/// It decides and keeps the books; the caller owns the stream, writes what
/// this hands out and hands in what it read.
pub struct Connection<C> {
    pub(crate) state: State,
    pub(crate) subscriptions: Vec<Subscription<C>>,
    pub(crate) subscription_num: u64,
}

impl<C> View for Connection<C> {
    type V = ConnectionView<C>;

    closed spec fn view(&self) -> ConnectionView<C> {
        ConnectionView {
            state: self.state,
            subscriptions: self.subscriptions@.map_values(
                |s: Subscription<C>| Entry { id: s.id as nat, name: s.name@, callback: s.callback },
            ),
            next_id: self.subscription_num as nat,
        }
    }
}

/// Whether one of the subscriptions is for the destination `name`.
pub open spec fn subscribed<C>(subscriptions: Seq<Entry<C>>, name: Seq<char>) -> bool {
    exists|i: int| 0 <= i < subscriptions.len() && (#[trigger] subscriptions[i]).name == name
}

/// The ids count up from 0 in the order of the subscriptions, the next id is
/// their number, and no destination is subscribed to twice.
pub open spec fn orderly<C>(view: ConnectionView<C>) -> bool {
    &&& view.next_id == view.subscriptions.len()
    &&& forall|i: int| 0 <= i < view.subscriptions.len() ==> (#[trigger] view.subscriptions[i]).id == i
    &&& forall|i: int, j: int|
        0 <= i < j < view.subscriptions.len() ==> (#[trigger] view.subscriptions[i]).name != (
        #[trigger] view.subscriptions[j]).name
}

/// The CONNECT frame that opens a session.
pub open spec fn connect_frame() -> FrameView {
    FrameView {
        command: Command::Connect,
        headers: seq![("content-length"@, decimal(0))],
        body: Seq::empty(),
    }
}

/// The SUBSCRIBE frame that asks for the messages of `destination` under `id`.
pub open spec fn subscribe_frame(id: nat, destination: Seq<char>) -> FrameView {
    FrameView {
        command: Command::Subscribe,
        headers: seq![
            ("content-length"@, decimal(0)),
            ("id"@, decimal(id)),
            ("destination"@, destination),
        ],
        body: Seq::empty(),
    }
}

/// What subscribing to `name` makes of a connection, and the frame to send
/// for it. A destination that has a subscription keeps it, callback and all,
/// and nothing is sent. A new destination gets the next id and the last
/// place in the table, and a SUBSCRIBE frame is sent.
pub open spec fn subscribe_step<C>(before: ConnectionView<C>, name: Seq<char>, callback: C) -> (
    ConnectionView<C>,
    Option<FrameView>,
) {
    if subscribed(before.subscriptions, name) {
        (before, None)
    } else {
        (
            ConnectionView {
                subscriptions: before.subscriptions.push(
                    Entry { id: before.next_id, name, callback },
                ),
                next_id: before.next_id + 1,
                ..before
            },
            Some(subscribe_frame(before.next_id, name)),
        )
    }
}

/// Subscribing keeps the table orderly.
pub proof fn lemma_subscribe_orderly<C>(before: ConnectionView<C>, name: Seq<char>, callback: C)
    requires
        orderly(before),
    ensures
        orderly(subscribe_step(before, name, callback).0),
{
    let after = subscribe_step(before, name, callback).0;
    if !subscribed(before.subscriptions, name) {
        assert forall|i: int, j: int| 0 <= i < j < after.subscriptions.len() implies (
        #[trigger] after.subscriptions[i]).name != (#[trigger] after.subscriptions[j]).name by {
            assert(after.subscriptions[i] == before.subscriptions[i]);
            if j < before.subscriptions.len() {
                assert(after.subscriptions[j] == before.subscriptions[j]);
            }
        }
    }
}

/// Subscribing to one destination twice is subscribing to it once: the
/// second time nothing is sent and nothing changes, whatever the callback, so
/// that there is one subscription for the destination, with the callback
/// that came first where there was none before.
pub proof fn lemma_subscribe_twice<C>(
    before: ConnectionView<C>,
    name: Seq<char>,
    first: C,
    second: C,
)
    ensures
        subscribe_step(subscribe_step(before, name, first).0, name, second) == (
            subscribe_step(before, name, first).0,
            None::<FrameView>,
        ),
        !subscribed(before.subscriptions, name) ==> {
            &&& subscribe_step(before, name, first).1 == Some(
                subscribe_frame(before.next_id, name),
            )
            &&& subscribe_step(before, name, first).0.subscriptions.len()
                == before.subscriptions.len() + 1
            &&& subscribe_step(before, name, first).0.subscriptions.last() == (Entry {
                id: before.next_id,
                name,
                callback: first,
            })
        },
{
    let once = subscribe_step(before, name, first).0;
    if !subscribed(before.subscriptions, name) {
        assert(once.subscriptions[before.subscriptions.len() as int].name == name);
    }
}

/// The failure that reports the broker's refusal of CONNECT.
pub open spec fn refused(body: Seq<char>) -> Fault {
    Fault {
        kind: ErrorKind::ConnectionRefused,
        detail: "Server refused connection. Error was: "@ + body,
    }
}

/// The failure that reports a frame with the command `got` where one with
/// the command word `wanted` was expected.
pub open spec fn unexpected(wanted: Seq<char>, got: Command) -> Fault {
    Fault {
        kind: ErrorKind::IncorrectResponse,
        detail: "Expected server to send a "@ + wanted
            + " frame but didn't get one. Instead got a "@ + got.token() + " frame"@,
    }
}

/// What the broker's answer to CONNECT means: CONNECTED is success, ERROR a
/// refusal with the frame's body, any other frame an incorrect response, and
/// what is no frame is the failure to read it.
pub open spec fn connect_answer(reply: Result<FrameView, Fault>) -> Result<(), Fault> {
    match reply {
        Err(fault) => Err(fault),
        Ok(frame) => match frame.command {
            Command::Connected => Ok(()),
            Command::Error => Err(refused(frame.body)),
            other => Err(unexpected("CONNECTED"@, other)),
        },
    }
}

/// What the broker's answer to a SEND with a receipt means: RECEIPT is
/// success, ERROR says that the message was not sent, with the frame's body,
/// and any other frame is an incorrect response.
pub open spec fn receipt_answer(reply: Result<FrameView, Fault>) -> Result<(), Fault> {
    match reply {
        Err(fault) => Err(fault),
        Ok(frame) => match frame.command {
            Command::Receipt => Ok(()),
            Command::Error => Err(Fault { kind: ErrorKind::MessageNotSent, detail: frame.body }),
            other => Err(unexpected("RECEIPT"@, other)),
        },
    }
}

/// What came of waiting a while after a SEND: nothing is success, ERROR says
/// that the message was not sent, with the frame's body, and any other frame
/// is an incorrect response.
pub open spec fn wait_answer(reply: Option<Result<FrameView, Fault>>) -> Result<(), Fault> {
    match reply {
        None => Ok(()),
        Some(Err(fault)) => Err(fault),
        Some(Ok(frame)) => match frame.command {
            Command::Error => Err(Fault { kind: ErrorKind::MessageNotSent, detail: frame.body }),
            other => Err(unexpected("ERROR"@, other)),
        },
    }
}

/// What a frame that was asked for means: MESSAGE is the message, ERROR a
/// failure of the kind `Other` with the frame's body, and any other frame an
/// incorrect response.
pub open spec fn receive_answer(reply: Result<FrameView, Fault>) -> Result<FrameView, Fault> {
    match reply {
        Err(fault) => Err(fault),
        Ok(frame) => match frame.command {
            Command::Message => Ok(frame),
            Command::Error => Err(Fault { kind: ErrorKind::Other, detail: frame.body }),
            other => Err(unexpected("MESSAGE"@, other)),
        },
    }
}

/// The subscription that a frame is for: the number that its `subscription`
/// header writes in decimal.
pub open spec fn addressed(frame: FrameView) -> Option<nat> {
    match lookup(frame.headers, "subscription"@) {
        Some(value) => parse_decimal(value),
        None => None,
    }
}

/// The frame to hand to a callback, and the subscription whose callback it
/// is: a buffer that holds a frame for one of the `count` subscriptions.
pub open spec fn delivery(bytes: Seq<u8>, count: nat) -> Option<(nat, FrameView)> {
    match parsed_bytes(bytes) {
        Ok(frame) => match addressed(frame) {
            Some(id) if id < count => Some((id, frame)),
            _ => None,
        },
        Err(_) => None,
    }
}

/// A frame finds its subscription: what is written for a well-formed frame
/// that is safe on the wire and whose `subscription` header writes in decimal
/// the id of one of the subscriptions is delivered to that subscription, with
/// the command, the body and every header of the frame.
pub proof fn lemma_delivery(frame: FrameView, id: nat, count: nat)
    requires
        distinct_keys(frame.headers),
        wire_safe(frame),
        lookup(frame.headers, "subscription"@) == Some(decimal(id)),
        id < count,
    ensures
        match delivery(encode_utf8(wire(frame)), count) {
            Some((to, got)) => {
                &&& to == id
                &&& got.command == frame.command
                &&& got.body == frame.body
                &&& forall|key: Seq<char>|
                    lookup(frame.headers, key).is_some() ==> lookup(got.headers, key) == lookup(
                        frame.headers,
                        key,
                    )
            },
            None => false,
        },
{
    let sent = wire(frame);
    vstd::utf8::encode_utf8_valid_utf8(sent);
    vstd::utf8::encode_utf8_decode_utf8(sent);
    lemma_round_trip_modulo_length(frame);
    lemma_parse_decimal(id);
    let got = parsed(sent)->Ok_0;
    assert(lookup(got.headers, "subscription"@) == lookup(frame.headers, "subscription"@));
}

/// The failure that reports a frame with the wrong command.
fn wrong_command(wanted: &str, got: Command) -> (error: StompError)
    ensures
        error@ == unexpected(wanted@, got),
{
    let mut detail = String::from_str("Expected server to send a ");
    detail.append(wanted);
    detail.append(" frame but didn't get one. Instead got a ");
    detail.append(got.to_str());
    detail.append(" frame");
    StompError::IncorrectResponse(detail)
}

impl<C> Connection<C> {
    /// The table of subscriptions is orderly: see `orderly`.
    pub open spec fn well_formed(&self) -> bool {
        orderly(self@)
    }

    /// A connection whose stream is not open yet, without subscriptions.
    pub fn new() -> (connection: Connection<C>)
        ensures
            connection@.state == State::Disconnected,
            connection@.subscriptions.len() == 0,
            connection@.next_id == 0,
            connection.well_formed(),
    {
        Connection { state: State::Disconnected, subscriptions: Vec::new(), subscription_num: 0 }
    }

    /// Where the handshake stands.
    pub fn state(&self) -> (state: State)
        ensures
            state == self@.state,
    {
        self.state
    }

    /// The number of subscriptions.
    pub fn subscription_count(&self) -> (count: usize)
        ensures
            count == self@.subscriptions.len(),
    {
        self.subscriptions.len()
    }

    /// The stream is open: the handshake begins. Returns the CONNECT frame to
    /// write to the stream.
    pub fn connect(&mut self) -> (text: String)
        requires
            old(self)@.state == State::Disconnected,
        ensures
            text@ == wire(connect_frame()),
            final(self)@ == (ConnectionView { state: State::AwaitingConnected, ..old(self)@ }),
            final(self).well_formed() == old(self).well_formed(),
    {
        let frame = Frame::new(Command::Connect, "");
        proof {
            lemma_empty_text();
        }
        self.state = State::AwaitingConnected;
        frame.to_string()
    }

    /// The broker's answer to CONNECT was read: the handshake ends. The
    /// connection is connected where the answer is a CONNECTED frame; any
    /// other answer fails it for good.
    pub fn connected(&mut self, response: &[u8]) -> (out: Result<(), StompError>)
        requires
            old(self)@.state == State::AwaitingConnected,
        ensures
            match out {
                Ok(()) => connect_answer(parsed_bytes(response@)) == Ok::<(), Fault>(()),
                Err(e) => connect_answer(parsed_bytes(response@)) == Err::<(), Fault>(e@),
            },
            final(self)@ == (ConnectionView {
                state: if out.is_ok() {
                    State::Connected
                } else {
                    State::Failed
                },
                ..old(self)@
            }),
            final(self).well_formed() == old(self).well_formed(),
    {
        let frame = match Frame::parse(response) {
            Ok(frame) => frame,
            Err(e) => {
                self.state = State::Failed;
                return Err(e);
            },
        };
        match frame.command() {
            Command::Connected => {
                self.state = State::Connected;
                Ok(())
            },
            Command::Error => {
                self.state = State::Failed;
                let mut detail = String::from_str("Server refused connection. Error was: ");
                detail.append(frame.body().as_str());
                Err(StompError::ConnectionRefused(detail))
            },
            other => {
                self.state = State::Failed;
                Err(wrong_command("CONNECTED", other))
            },
        }
    }

    /// The position of the subscription for `queue`; the number of
    /// subscriptions where there is none.
    fn find_subscription(&self, queue: &str) -> (at: usize)
        ensures
            at <= self@.subscriptions.len(),
            at < self@.subscriptions.len() ==> self@.subscriptions[at as int].name == queue@,
            at == self@.subscriptions.len() ==> !subscribed(self@.subscriptions, queue@),
    {
        let name = chars_of(queue);
        let mut i: usize = 0;
        while i < self.subscriptions.len()
            invariant
                name@ == queue@,
                i <= self.subscriptions@.len(),
                self@.subscriptions.len() == self.subscriptions@.len(),
                forall|j: int| 0 <= j < i ==> (#[trigger] self@.subscriptions[j]).name != queue@,
            decreases self.subscriptions@.len() - i,
        {
            if same_text(&name, self.subscriptions[i].name.as_str()) {
                return i;
            }
            i += 1;
        }
        i
    }

    /// Subscribes to the destination `queue`. Where there is a subscription
    /// for it already, nothing changes, the callback that is there stays, and
    /// nothing is to be sent. Otherwise the subscription gets the next id and
    /// goes into the table, and the SUBSCRIBE frame to write to the stream is
    /// returned.
    pub fn subscribe(&mut self, queue: &str, callback: C) -> (text: Option<String>)
        requires
            old(self).well_formed(),
            old(self)@.state == State::Connected,
        ensures
            final(self).well_formed(),
            final(self)@ == subscribe_step(old(self)@, queue@, callback).0,
            match text {
                None => subscribe_step(old(self)@, queue@, callback).1.is_none(),
                Some(text) => subscribe_step(old(self)@, queue@, callback).1 is Some && text@
                    == wire(subscribe_step(old(self)@, queue@, callback).1->0),
            },
    {
        let at: usize = self.find_subscription(queue);
        if at < self.subscriptions.len() {
            return None;
        }
        let mut frame = Frame::new(Command::Subscribe, "");
        let id = decimal_of(self.subscription_num);
        proof {
            lemma_empty_text();
            reveal_strlit("content-length");
            reveal_strlit("id");
            reveal_strlit("destination");
            assert("content-length"@.len() == 14 && "id"@.len() == 2 && "destination"@.len() == 11);
            lemma_key_index_is(frame@.headers, "id"@, 0, 1);
        }
        frame.add_header("id", id.as_str());
        proof {
            lemma_key_index_is(frame@.headers, "destination"@, 0, 2);
        }
        frame.add_header("destination", queue);
        assert(frame@.headers =~= subscribe_frame(old(self)@.next_id, queue@).headers);
        let ghost before = self@;
        self.subscriptions.push(
            Subscription { id: self.subscription_num, name: String::from_str(queue), callback },
        );
        let count: usize = self.subscriptions.len();
        self.subscription_num = self.subscription_num + 1;
        proof {
            assert(self@.subscriptions =~= before.subscriptions.push(
                Entry { id: before.next_id, name: queue@, callback },
            ));
            assert forall|i: int, j: int| 0 <= i < j < self@.subscriptions.len() implies (
            #[trigger] self@.subscriptions[i]).name != (#[trigger] self@.subscriptions[j]).name by {
                if j < before.subscriptions.len() {
                    assert(self@.subscriptions[i] == before.subscriptions[i]);
                    assert(self@.subscriptions[j] == before.subscriptions[j]);
                } else {
                    assert(self@.subscriptions[i] == before.subscriptions[i]);
                }
            }
        }
        Some(frame.to_string())
    }

    /// Publishes a message without asking for an answer. Returns the frame to
    /// write to the stream.
    pub fn send_message(&self, msg: Message) -> (text: String)
        requires
            self@.state == State::Connected,
        ensures
            text@ == wire(msg@),
    {
        msg.to_string()
    }

    /// Publishes a message and asks the broker for a receipt: the message
    /// gets the header `receipt` with the given value. Returns the frame to
    /// write to the stream; the broker's answer goes to `receipt`.
    pub fn send_with_receipt(&self, msg: Message, receipt: &str) -> (text: String)
        requires
            self@.state == State::Connected,
            msg.well_formed(),
        ensures
            text@ == wire(
                FrameView {
                    headers: put(msg@.headers, "receipt"@, receipt@),
                    ..msg@
                },
            ),
    {
        let mut msg = msg;
        msg.add_header("receipt", receipt);
        msg.to_string()
    }

    /// The broker's answer to a message sent with a receipt was read.
    pub fn receipt(&self, response: &[u8]) -> (out: Result<(), StompError>)
        requires
            self@.state == State::Connected,
        ensures
            match out {
                Ok(()) => receipt_answer(parsed_bytes(response@)) == Ok::<(), Fault>(()),
                Err(e) => receipt_answer(parsed_bytes(response@)) == Err::<(), Fault>(e@),
            },
    {
        let frame = match Frame::parse(response) {
            Ok(frame) => frame,
            Err(e) => {
                return Err(e);
            },
        };
        match frame.command() {
            Command::Receipt => Ok(()),
            Command::Error => Err(StompError::MessageNotSent(frame.body().clone())),
            other => Err(wrong_command("RECEIPT", other)),
        }
    }

    /// The wait after a message was sent is over: `response` is what was
    /// read in that time, `None` where nothing came.
    pub fn waited(&self, response: Option<&[u8]>) -> (out: Result<(), StompError>)
        requires
            self@.state == State::Connected,
        ensures
            match out {
                Ok(()) => wait_answer(
                    match response {
                        Some(bytes) => Some(parsed_bytes(bytes@)),
                        None => None,
                    },
                ) == Ok::<(), Fault>(()),
                Err(e) => wait_answer(
                    match response {
                        Some(bytes) => Some(parsed_bytes(bytes@)),
                        None => None,
                    },
                ) == Err::<(), Fault>(e@),
            },
    {
        let bytes = match response {
            Some(bytes) => bytes,
            None => {
                return Ok(());
            },
        };
        let frame = match Frame::parse(bytes) {
            Ok(frame) => frame,
            Err(e) => {
                return Err(e);
            },
        };
        match frame.command() {
            Command::Error => Err(StompError::MessageNotSent(frame.body().clone())),
            other => Err(wrong_command("ERROR", other)),
        }
    }

    /// A frame that the caller asked for was read: the message that it
    /// carries.
    pub fn receive(&self, response: &[u8]) -> (out: Result<Message, StompError>)
        requires
            self@.state == State::Connected,
        ensures
            match out {
                Ok(message) => receive_answer(parsed_bytes(response@)) == Ok::<FrameView, Fault>(
                    message@,
                ) && message.well_formed(),
                Err(e) => receive_answer(parsed_bytes(response@)) == Err::<FrameView, Fault>(e@),
            },
    {
        let frame = match Frame::parse(response) {
            Ok(frame) => frame,
            Err(e) => {
                return Err(e);
            },
        };
        match frame.command() {
            Command::Message => Ok(Message::from_frame(frame)),
            Command::Error => Err(StompError::Other(frame.body().clone())),
            other => Err(wrong_command("MESSAGE", other)),
        }
    }

    /// A buffer was read in the background: the callback to call and the
    /// message to call it with. There is none where the buffer holds no
    /// frame, or the frame's `subscription` header is missing, is no number,
    /// or is the id of no subscription.
    pub fn dispatch(&self, response: &[u8]) -> (out: Option<(&C, Message)>)
        requires
            self.well_formed(),
            self@.state == State::Connected,
        ensures
            match out {
                Some((callback, message)) => match delivery(
                    response@,
                    self@.subscriptions.len(),
                ) {
                    Some((id, frame)) => {
                        &&& message@ == frame
                        &&& message.well_formed()
                        &&& *callback == self@.subscriptions[id as int].callback
                    },
                    None => false,
                },
                None => delivery(response@, self@.subscriptions.len()).is_none(),
            },
    {
        let frame = match Frame::parse(response) {
            Ok(frame) => frame,
            Err(_) => {
                return None;
            },
        };
        let id: u64 = match frame.get_header("subscription") {
            Some(value) => match read_decimal(&chars_of(value.as_str())) {
                Some(id) => id,
                None => {
                    return None;
                },
            },
            None => {
                return None;
            },
        };
        let count: usize = self.subscriptions.len();
        if id >= count as u64 {
            return None;
        }
        let callback = &self.subscriptions[id as usize].callback;
        Some((callback, Message::from_frame(frame)))
    }
}

} // verus!
