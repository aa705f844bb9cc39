//! A connection as a client sees it: the bytes of the server arrive in pieces of any length,
//! with the inputs of the local user at any moment in between.

use vstd::prelude::*;

use crate::bytes;
use crate::client;
use crate::client::{Client, ClientAction, ClientEvent};
use crate::protocol;
use crate::protocol::{Message, MessageView, ProtocolError, MAX_PAYLOAD};

verus! {

/// The bytes that arrived and are not used up yet.
pub struct Inbox {
    buffer: Vec<u8>,
}

impl View for Inbox {
    type V = Seq<u8>;

    closed spec fn view(&self) -> Seq<u8> {
        self.buffer@
    }
}

/// Whether the next read of a stream that starts with `buffer` needs no more bytes than these:
/// the message is there in full, or its length is refused.
pub open spec fn is_whole(buffer: Seq<u8>) -> bool {
    let len = bytes::le_value(buffer.take(4));
    buffer.len() >= 4 && (len > MAX_PAYLOAD || buffer.len() >= 4 + len)
}

/// How many bytes that read uses up.
pub open spec fn used_by(buffer: Seq<u8>) -> nat {
    let len = bytes::le_value(buffer.take(4));
    if len > MAX_PAYLOAD {
        4
    } else {
        4 + len
    }
}

/// What a result says, with a message by its view.
pub open spec fn outcome_of(r: Result<Message, ProtocolError>) -> Result<
    MessageView,
    ProtocolError,
> {
    match r {
        Ok(msg) => Ok(msg@),
        Err(e) => Err(e),
    }
}

impl Inbox {
    /// An inbox at the start of a connection.
    pub fn new() -> (inbox: Inbox)
        ensures
            inbox@ == Seq::<u8>::empty(),
    {
        Inbox { buffer: Vec::new() }
    }

    /// Adds bytes that arrived.
    pub fn feed(&mut self, chunk: &[u8])
        ensures
            final(self)@ == old(self)@ + chunk@,
    {
        self.buffer.extend_from_slice(chunk);
        assert(self@ =~= old(self)@ + chunk@);
    }

    /// Takes the next message, or the error in its place. `None` where more bytes are needed.
    pub fn next(&mut self) -> (r: Option<Result<Message, ProtocolError>>)
        ensures
            match r {
                None => !is_whole(old(self)@) && final(self)@ == old(self)@,
                Some(result) => {
                    &&& is_whole(old(self)@)
                    &&& protocol::read_outcome(
                        old(self)@,
                        outcome_of(result),
                        used_by(old(self)@),
                    )
                    &&& final(self)@ == old(self)@.skip(used_by(old(self)@) as int)
                },
            },
    {
        let mut pos: usize = 0;
        assert(self@.skip(0) =~= self@);
        let result = protocol::read_message(self.buffer.as_slice(), &mut pos);
        match result {
            Err(ProtocolError::ShortLength) | Err(ProtocolError::ShortPayload) => None,
            result => {
                self.buffer = self.buffer.split_off(pos);
                assert(self@ =~= old(self)@.skip(pos as int));
                Some(result)
            },
        }
    }

    /// The error where the stream ends here.
    pub fn end(&self) -> (r: ProtocolError)
        requires
            !is_whole(self@),
        ensures
            protocol::read_outcome(self@, Err::<MessageView, ProtocolError>(r), self@.len()),
            r == if self@.len() < 4 {
                ProtocolError::ShortLength
            } else {
                ProtocolError::ShortPayload
            },
    {
        if self.buffer.len() < 4 {
            ProtocolError::ShortLength
        } else {
            ProtocolError::ShortPayload
        }
    }
}

// ---------------------------------------------------------------------------
// A client and its inbox
// ---------------------------------------------------------------------------

/// A step in the life of a client and its inbox.
pub enum LinkStep {
    /// Bytes arrived from the server.
    Fed(Seq<u8>),
    /// The connection broke.
    Broke,
    /// Something happened to the client.
    Event(ClientEvent),
}

/// What happened to the client.
pub open spec fn events_of(steps: Seq<LinkStep>) -> Seq<ClientEvent>
    decreases steps.len(),
{
    if steps.len() == 0 {
        Seq::empty()
    } else {
        let before = events_of(steps.drop_last());
        match steps.last() {
            LinkStep::Event(event) => before.push(event),
            _ => before,
        }
    }
}

/// The bytes that arrived since the client last opened a connection.
pub open spec fn fed_since(steps: Seq<LinkStep>) -> Seq<u8>
    decreases steps.len(),
{
    if steps.len() == 0 {
        Seq::empty()
    } else {
        let before = fed_since(steps.drop_last());
        match steps.last() {
            LinkStep::Fed(chunk) => before + chunk,
            LinkStep::Event(ClientEvent::Opened { .. }) => Seq::empty(),
            _ => before,
        }
    }
}

/// Whether the connection broke since the client last opened one.
pub open spec fn broke_since(steps: Seq<LinkStep>) -> bool
    decreases steps.len(),
{
    if steps.len() == 0 {
        false
    } else {
        match steps.last() {
            LinkStep::Broke => true,
            LinkStep::Event(ClientEvent::Opened { .. }) => false,
            _ => broke_since(steps.drop_last()),
        }
    }
}

/// The messages that the client took from its inbox since it last opened a connection.
pub open spec fn arrived_since(steps: Seq<LinkStep>) -> Seq<MessageView>
    decreases steps.len(),
{
    if steps.len() == 0 {
        Seq::empty()
    } else {
        let before = arrived_since(steps.drop_last());
        match steps.last() {
            LinkStep::Event(ClientEvent::Opened { .. }) => Seq::empty(),
            LinkStep::Event(ClientEvent::Greeted(Some(msg))) => before.push(msg@),
            LinkStep::Event(ClientEvent::Received(Some(msg))) => before.push(msg@),
            _ => before,
        }
    }
}

/// What the inbox holds: it is new with each connection, gets the bytes that arrive, and loses
/// those of each message that the client takes.
pub open spec fn inbox_of(steps: Seq<LinkStep>) -> Seq<u8>
    decreases steps.len(),
{
    if steps.len() == 0 {
        Seq::empty()
    } else {
        let before = inbox_of(steps.drop_last());
        match steps.last() {
            LinkStep::Fed(chunk) => before + chunk,
            LinkStep::Event(ClientEvent::Opened { .. }) => Seq::empty(),
            LinkStep::Event(ClientEvent::Greeted(Some(_))) => before.skip(used_by(before) as int),
            LinkStep::Event(ClientEvent::Received(Some(_))) => before.skip(used_by(before) as int),
            _ => before,
        }
    }
}

/// How many frames the client had received in all when it last opened a connection.
pub open spec fn frames_before(steps: Seq<LinkStep>) -> nat
    decreases steps.len(),
{
    if steps.len() == 0 {
        0
    } else if steps.last() matches LinkStep::Event(event) && event is Opened {
        client::frames_received(events_of(steps)).len()
    } else {
        frames_before(steps.drop_last())
    }
}

/// Whether `read` is what the client can get when it asks its inbox for a message: the next one,
/// or none where the inbox holds no message there or the connection broke.
pub open spec fn can_read(inbox: Seq<u8>, broke: bool, read: Option<Message>) -> bool {
    match read {
        Some(msg) => is_whole(inbox) && protocol::read_outcome(
            inbox,
            Ok::<MessageView, ProtocolError>(msg@),
            used_by(inbox),
        ),
        None => broke || (is_whole(inbox) && exists|e: ProtocolError| #[trigger]
            protocol::read_outcome(
                inbox,
                Err::<MessageView, ProtocolError>(e),
                used_by(inbox),
            )),
    }
}

/// What happened to a client that read: its first message, or a later one.
pub open spec fn read_as(first: bool, read: Option<Message>) -> ClientEvent {
    if first {
        ClientEvent::Greeted(read)
    } else {
        ClientEvent::Received(read)
    }
}

/// What happens to a client that waits for a message, with the error where the inbox holds no
/// message. `None` where more bytes are needed. `first` tells whether the client waits for the
/// first message.
pub fn read_event(inbox: &mut Inbox, first: bool) -> (r: Option<
    (ClientEvent, Option<ProtocolError>),
>)
    ensures
        match r {
            None => !is_whole(old(inbox)@) && final(inbox)@ == old(inbox)@,
            Some((event, error)) => {
                &&& is_whole(old(inbox)@)
                &&& final(inbox)@ == old(inbox)@.skip(used_by(old(inbox)@) as int)
                &&& match error {
                    None => exists|msg: Message|
                        {
                            &&& event == #[trigger] read_as(first, Some(msg))
                            &&& can_read(old(inbox)@, false, Some(msg))
                        },
                    Some(e) => {
                        &&& event == read_as(first, None)
                        &&& can_read(old(inbox)@, false, None)
                        &&& protocol::read_outcome(
                            old(inbox)@,
                            Err::<MessageView, ProtocolError>(e),
                            used_by(old(inbox)@),
                        )
                    },
                }
            },
        },
{
    match inbox.next() {
        None => None,
        Some(Ok(msg)) => {
            let ghost taken = msg;
            let event = if first {
                ClientEvent::Greeted(Some(msg))
            } else {
                ClientEvent::Received(Some(msg))
            };
            assert(event == read_as(first, Some(taken)));
            Some((event, None))
        },
        Some(Err(e)) => {
            if first {
                Some((ClientEvent::Greeted(None), Some(e)))
            } else {
                Some((ClientEvent::Received(None), Some(e)))
            }
        },
    }
}

/// Whether `step` can follow `steps`: bytes arrive and connections break at any moment, what
/// happens to the client is a result of its last action, and what it reads comes from its
/// inbox. Inputs can come at any moment at which the client waits.
pub open spec fn can_follow(max_retries: u32, steps: Seq<LinkStep>, step: LinkStep) -> bool {
    match step {
        LinkStep::Event(event) => {
            &&& event.answers(Client::after_all(max_retries, events_of(steps)).1)
            &&& event matches ClientEvent::Greeted(read) ==> can_read(
                inbox_of(steps),
                broke_since(steps),
                read,
            )
            &&& event matches ClientEvent::Received(read) ==> can_read(
                inbox_of(steps),
                broke_since(steps),
                read,
            )
        },
        _ => true,
    }
}

/// Whether each step can follow the ones before it.
pub open spec fn links(max_retries: u32, steps: Seq<LinkStep>) -> bool
    decreases steps.len(),
{
    steps.len() > 0 ==> {
        &&& links(max_retries, steps.drop_last())
        &&& can_follow(max_retries, steps.drop_last(), steps.last())
    }
}

/// Whether a server may send the messages: each can be read.
pub open spec fn readable(messages: Seq<MessageView>) -> bool {
    forall|i: int|
        0 <= i < messages.len() ==> (#[trigger] messages[i]).in_range()
            && messages[i].payload().len() <= MAX_PAYLOAD
}

/// It makes no difference how the bytes of a connection are cut, and what happens between the
/// pieces: the client gets the messages that the server sent, in order and intact, and no other.
/// Where all their bytes have arrived and the inbox has no message left, it got them all. No
/// read fails while the connection holds.
pub proof fn law_pieces_do_not_matter(
    max_retries: u32,
    steps: Seq<LinkStep>,
    messages: Seq<MessageView>,
)
    requires
        links(max_retries, steps),
        readable(messages),
        fed_since(steps).is_prefix_of(protocol::stream_of(messages)),
    ensures
        ({
            let arrived = arrived_since(steps);
            &&& arrived.len() <= messages.len()
            &&& arrived == messages.take(arrived.len() as int)
            &&& inbox_of(steps) == fed_since(steps).skip(
                protocol::stream_of(messages.take(arrived.len() as int)).len() as int,
            )
            &&& protocol::stream_of(messages.take(arrived.len() as int)).len() <= fed_since(
                steps,
            ).len()
            &&& fed_since(steps) == protocol::stream_of(messages) && !is_whole(inbox_of(steps))
                ==> arrived == messages
            &&& steps.len() > 0 && (steps.last() == LinkStep::Event(ClientEvent::Greeted(None))
                || steps.last() == LinkStep::Event(ClientEvent::Received(None))) ==> broke_since(
                steps,
            )
        }),
    decreases steps.len(),
{
    let stream = protocol::stream_of(messages);
    let fed = fed_since(steps);
    let none = messages.take(0);
    assert(none =~= Seq::<MessageView>::empty());
    if steps.len() > 0 {
        let before = steps.drop_last();
        match steps.last() {
            LinkStep::Fed(chunk) => {
                let was = fed_since(before);
                assert(was.is_prefix_of(stream)) by {
                    assert(was =~= stream.take(was.len() as int));
                }
                law_pieces_do_not_matter(max_retries, before, messages);
                let at = protocol::stream_of(
                    messages.take(arrived_since(before).len() as int),
                ).len() as int;
                assert((was + chunk).skip(at) =~= was.skip(at) + chunk);
            },
            LinkStep::Broke => {
                law_pieces_do_not_matter(max_retries, before, messages);
            },
            LinkStep::Event(event) => {
                if event is Opened {
                    assert(fed.skip(0) =~= fed);
                    assert(arrived_since(steps) =~= none);
                } else {
                    law_pieces_do_not_matter(max_retries, before, messages);
                    let k = arrived_since(before).len() as int;
                    match event {
                        ClientEvent::Greeted(read) => {
                            lemma_next_message(fed, messages, k, broke_since(before), read);
                        },
                        ClientEvent::Received(read) => {
                            lemma_next_message(fed, messages, k, broke_since(before), read);
                        },
                        _ => {},
                    }
                }
            },
        }
    } else {
        assert(fed.skip(0) =~= fed);
        assert(arrived_since(steps) =~= none);
    }
    let k = arrived_since(steps).len() as int;
    if fed == stream && k < messages.len() {
        lemma_front(fed, messages, k);
    }
    if k == messages.len() {
        assert(messages.take(k) =~= messages);
    }
}

/// The bytes of two series of messages, one behind the other.
proof fn lemma_stream_add(a: Seq<MessageView>, b: Seq<MessageView>)
    ensures
        protocol::stream_of(a + b) == protocol::stream_of(a) + protocol::stream_of(b),
    decreases a.len(),
{
    if a.len() == 0 {
        assert(a + b =~= b);
        assert(protocol::stream_of(a + b) =~= protocol::stream_of(a) + protocol::stream_of(b));
    } else {
        assert((a + b).drop_first() =~= a.drop_first() + b);
        lemma_stream_add(a.drop_first(), b);
        assert(protocol::stream_of(a + b) =~= protocol::stream_of(a) + protocol::stream_of(b));
    }
}

/// What is left of a stream behind `k` messages starts with the next one. Where it is there in
/// full, reading it gives that message, and the stream goes on behind its bytes.
proof fn lemma_front(fed: Seq<u8>, messages: Seq<MessageView>, k: int)
    requires
        readable(messages),
        fed.is_prefix_of(protocol::stream_of(messages)),
        0 <= k < messages.len(),
        protocol::stream_of(messages.take(k)).len() <= fed.len(),
    ensures
        ({
            let at = protocol::stream_of(messages.take(k)).len();
            let inbox = fed.skip(at as int);
            let next = messages[k].framed();
            &&& is_whole(inbox) <==> inbox.len() >= next.len()
            &&& is_whole(inbox) ==> inbox == next + inbox.skip(next.len() as int) && used_by(inbox)
                == next.len()
            &&& protocol::stream_of(messages.take(k + 1)).len() == at + next.len()
            &&& protocol::stream_of(messages).len() >= at + next.len()
        }),
{
    broadcast use crate::bytes::lemma_le_bytes_len;

    let front = messages.take(k);
    let back = messages.skip(k);
    let next = messages[k].framed();
    let len = messages[k].payload().len();
    let stream = protocol::stream_of(messages);
    let at = protocol::stream_of(front).len() as int;
    let inbox = fed.skip(at);
    assert(messages =~= front + back);
    lemma_stream_add(front, back);
    let rest = protocol::stream_of(back.drop_first());
    assert(stream =~= protocol::stream_of(front) + (next + rest));
    assert(messages.take(k + 1) =~= front + seq![messages[k]]);
    lemma_stream_add(front, seq![messages[k]]);
    assert(protocol::stream_of(seq![messages[k]]) =~= next) by {
        reveal_with_fuel(protocol::stream_of, 2);
        assert(seq![messages[k]].drop_first() =~= Seq::<MessageView>::empty());
    }
    assert(fed =~= stream.take(fed.len() as int));
    assert(inbox =~= (next + rest).take(inbox.len() as int));
    if inbox.len() >= 4 {
        assert(inbox.take(4) =~= bytes::le_bytes(len, 4));
        bytes::lemma_byte_ranges();
        bytes::lemma_value_of_bytes(len, 4);
    }
    if inbox.len() >= next.len() {
        assert(inbox =~= next + inbox.skip(next.len() as int));
    }
}

/// The next message that a client reads behind `k` others is the next one that was sent.
proof fn lemma_next_message(
    fed: Seq<u8>,
    messages: Seq<MessageView>,
    k: int,
    broke: bool,
    read: Option<Message>,
)
    requires
        readable(messages),
        fed.is_prefix_of(protocol::stream_of(messages)),
        0 <= k <= messages.len(),
        protocol::stream_of(messages.take(k)).len() <= fed.len(),
        can_read(
            fed.skip(protocol::stream_of(messages.take(k)).len() as int),
            broke,
            read,
        ),
    ensures
        read is None ==> broke,
        read matches Some(msg) ==> {
            let inbox = fed.skip(protocol::stream_of(messages.take(k)).len() as int);
            let at = protocol::stream_of(messages.take(k + 1)).len();
            &&& k < messages.len()
            &&& msg@ == messages[k]
            &&& messages.take(k).push(msg@) == messages.take(k + 1)
            &&& at <= fed.len()
            &&& inbox.skip(used_by(inbox) as int) == fed.skip(at as int)
        },
{
    let at = protocol::stream_of(messages.take(k)).len() as int;
    let inbox = fed.skip(at);
    if k == messages.len() {
        assert(messages.take(k) =~= messages);
        assert(inbox.len() == 0);
    } else {
        lemma_front(fed, messages, k);
        if is_whole(inbox) {
            let next = messages[k].framed();
            let tail = inbox.skip(next.len() as int);
            match read {
                Some(msg) => {
                    protocol::law_read_after_write(
                        messages[k],
                        tail,
                        Ok(msg@),
                        used_by(inbox),
                    );
                    assert(messages.take(k).push(msg@) =~= messages.take(k + 1));
                    assert(tail =~= fed.skip(at + next.len()));
                },
                None => {
                    if !broke {
                        let e = choose|e: ProtocolError| #[trigger]
                            protocol::read_outcome(
                                inbox,
                                Err::<MessageView, ProtocolError>(e),
                                used_by(inbox),
                            );
                        protocol::law_read_after_write(messages[k], tail, Err(e), used_by(inbox));
                    }
                },
            }
        }
    }
}

/// The messages of a server: its handshake, and frames behind it.
pub open spec fn served(handshake: MessageView, frames: Seq<MessageView>) -> Seq<MessageView> {
    seq![handshake] + frames
}

/// What happened to the client is a run of it.
proof fn lemma_events_run(max_retries: u32, steps: Seq<LinkStep>)
    requires
        links(max_retries, steps),
    ensures
        Client::runs(max_retries, events_of(steps)),
    decreases steps.len(),
{
    if steps.len() > 0 {
        let before = steps.drop_last();
        lemma_events_run(max_retries, before);
        if let LinkStep::Event(event) = steps.last() {
            let was = events_of(before);
            let now = was.push(event);
            assert forall|i: int| 0 <= i < now.len() implies (#[trigger] now[i]).answers(
                Client::after_all(max_retries, now.take(i)).1,
            ) by {
                if i < was.len() {
                    assert(now.take(i) =~= was.take(i));
                    assert(was[i].answers(Client::after_all(max_retries, was.take(i)).1));
                } else {
                    assert(now.take(i) =~= was);
                }
            }
        }
    }
}

/// The frames that a client received since it last opened a connection are those that arrived
/// behind the handshake, and all frames from before were handed on.
proof fn lemma_frames_since(
    max_retries: u32,
    steps: Seq<LinkStep>,
    handshake: MessageView,
    frames: Seq<MessageView>,
)
    requires
        links(max_retries, steps),
        handshake is Handshake,
        forall|i: int| 0 <= i < frames.len() ==> #[trigger] frames[i] is VideoFrame,
        readable(served(handshake, frames)),
        fed_since(steps).is_prefix_of(protocol::stream_of(served(handshake, frames))),
    ensures
        ({
            let events = events_of(steps);
            let received = client::frames_received(events);
            let base = frames_before(steps);
            let arrived = arrived_since(steps).len();
            let count: nat = if arrived == 0 {
                0
            } else {
                (arrived - 1) as nat
            };
            &&& received.len() == base + count
            &&& count <= frames.len()
            &&& forall|i: int|
                base <= i < received.len() ==> (#[trigger] received[i])@ == frames[i - base]->data
            &&& client::frames_delivered(max_retries, events).len() >= base
            &&& Client::after_all(max_retries, events).1 is ReadHandshake ==> arrived == 0
        }),
    decreases steps.len(),
{
    let messages = served(handshake, frames);
    law_pieces_do_not_matter(max_retries, steps, messages);
    if steps.len() > 0 {
        let before = steps.drop_last();
        match steps.last() {
            LinkStep::Fed(chunk) => {
                let was = fed_since(before);
                assert(was =~= protocol::stream_of(messages).take(was.len() as int));
                lemma_frames_since(max_retries, before, handshake, frames);
            },
            LinkStep::Broke => {
                lemma_frames_since(max_retries, before, handshake, frames);
            },
            LinkStep::Event(event) => {
                let events = events_of(before);
                assert(events.push(event).drop_last() =~= events);
                lemma_events_run(max_retries, before);
                client::law_frames_arrive_in_order(max_retries, events);
                if event is Opened {
                    client::lemma_last_action(max_retries, events);
                } else {
                    lemma_frames_since(max_retries, before, handshake, frames);
                    let k = arrived_since(before).len() as int;
                    match event {
                        ClientEvent::Greeted(Some(msg)) => {
                            assert(arrived_since(steps)[k] == messages[k]);
                        },
                        ClientEvent::Received(Some(msg)) => {
                            assert(arrived_since(steps)[k] == messages[k]);
                        },
                        _ => {},
                    }
                }
            },
        }
    }
}

/// A connection keeps frames and inputs intact, however its bytes are cut and whatever inputs
/// come in between. Of the frames that the server sends behind its handshake, those that the
/// client hands on are the first ones, in order and with their bytes; and where all bytes have
/// arrived, the inbox has no message left and the client waits, it has handed on all of them.
/// Its inputs are written to the server in order; and where no write failed and the client
/// waits, it has written all of them.
pub proof fn law_connection_is_intact(
    max_retries: u32,
    steps: Seq<LinkStep>,
    handshake: MessageView,
    frames: Seq<MessageView>,
)
    requires
        links(max_retries, steps),
        handshake is Handshake,
        forall|i: int| 0 <= i < frames.len() ==> #[trigger] frames[i] is VideoFrame,
        readable(served(handshake, frames)),
        fed_since(steps).is_prefix_of(protocol::stream_of(served(handshake, frames))),
    ensures
        ({
            let events = events_of(steps);
            let waits = Client::after_all(max_retries, events).1 is Relay;
            let base = frames_before(steps);
            let delivered = client::frames_delivered(max_retries, events);
            let entered = client::inputs_entered(events);
            let settled = client::inputs_settled(max_retries, events);
            let written = client::inputs_written(max_retries, events);
            &&& base <= delivered.len() <= base + frames.len()
            &&& forall|i: int|
                base <= i < delivered.len() ==> (#[trigger] delivered[i])@ == frames[i
                    - base]->data
            &&& waits && fed_since(steps) == protocol::stream_of(served(handshake, frames))
                && !is_whole(inbox_of(steps)) ==> delivered.len() == base + frames.len()
            &&& forall|i: int| 0 <= i < settled.len() ==> (#[trigger] settled[i]).0 == entered[i]
            &&& waits && client::lost_of(settled) == 0 ==> written == entered
        }),
{
    let events = events_of(steps);
    let messages = served(handshake, frames);
    lemma_events_run(max_retries, steps);
    law_pieces_do_not_matter(max_retries, steps, messages);
    lemma_frames_since(max_retries, steps, handshake, frames);
    client::law_frames_arrive_in_order(max_retries, events);
    client::law_inputs_leave_in_order(max_retries, events);
    client::lemma_last_action(max_retries, events);
    let entered = client::inputs_entered(events);
    assert(entered.take(entered.len() as int) =~= entered);
    let received = client::frames_received(events);
    let delivered = client::frames_delivered(max_retries, events);
    let base = frames_before(steps);
    assert forall|i: int| base <= i < delivered.len() implies (#[trigger] delivered[i])@ == frames[i
        - base]->data by {
        assert(received[i] == delivered[i]);
    }
}

/// What a client read is its first message exactly where it waited for that, and is told as it
/// came.
pub proof fn law_reads_are_told_apart(first: bool, read: Option<Message>)
    ensures
        read_as(first, read) == ClientEvent::Greeted(read) <==> first,
        read_as(first, read) == ClientEvent::Received(read) <==> !first,
{
}

/// An inbox has something to read exactly where it holds four bytes and as many more as these
/// say, least significant first, or where that is over a hundred million; and reading uses up
/// these bytes, or the four alone.
pub proof fn law_inbox_waits_for_whole_messages(buffer: Seq<u8>)
    ensures
        buffer.len() < 4 ==> !is_whole(buffer),
        buffer.len() >= 4 ==> {
            let len = buffer[0] + 0x100 * buffer[1] + 0x1_0000 * buffer[2] + 0x100_0000 * buffer[3];
            &&& is_whole(buffer) <==> buffer.len() - 4 >= len || len > 100_000_000
            &&& used_by(buffer) == if len > 100_000_000 {
                4
            } else {
                4 + len
            }
        },
{
    if buffer.len() >= 4 {
        bytes::law_value_of_four_bytes(buffer.take(4));
    }
}

} // verus!
