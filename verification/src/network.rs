//! What server and client do next on a connection.
//!
//! Each part is a rule from what just happened to what to do now. Whoever owns the sockets
//! and channels performs the action and hands the result to the rule as the next event.

use vstd::prelude::*;

use crate::protocol::Message;

verus! {

/// The port that a server listens on.
pub const SERVER_PORT: u16 = 7070;

/// The version of the protocol that a handshake names.
pub const PROTOCOL_VERSION: u8 = 1;

/// How many frames a subscription holds before it drops the oldest.
pub const FRAME_CAPACITY: usize = 16;

// ---------------------------------------------------------------------------
// Server: accepting clients
// ---------------------------------------------------------------------------

/// The display that a server shows to its clients.
#[derive(Debug, Clone, Copy, PartialEq, Eq, Structural)]
pub struct Server {
    pub width: u32,
    pub height: u32,
    pub fps: u8,
}

/// What happened to a server.
pub enum ServerEvent {
    /// Accepting a connection failed.
    AcceptFailed,
    /// A client connected.
    Accepted,
    /// The handshake was written, or could not be.
    Greeted { written: bool },
    /// The server subscribed to the frames, for the client that it greeted.
    Subscribed,
    /// The relay to the client ended.
    RelayEnded,
}

/// What a server does next. There is no action that ends a server.
pub enum ServerAction {
    /// Wait for a client.
    Accept,
    /// Write this message to the client that just connected.
    Greet(Message),
    /// Subscribe to the frames: those that are made from then on.
    Subscribe,
    /// Relay the frames to the client, and its inputs back.
    Relay,
}

impl ServerEvent {
    /// Whether the event is a result of `action`.
    pub open spec fn answers(self, action: ServerAction) -> bool {
        match self {
            ServerEvent::AcceptFailed | ServerEvent::Accepted => action is Accept,
            ServerEvent::Greeted { .. } => action is Greet,
            ServerEvent::Subscribed => action is Subscribe,
            ServerEvent::RelayEnded => action is Relay,
        }
    }
}

impl Server {
    /// The handshake that each client gets first.
    pub open spec fn handshake(self) -> Message {
        Message::Handshake {
            version: PROTOCOL_VERSION,
            width: self.width,
            height: self.height,
            fps: self.fps,
        }
    }

    /// What follows `event`.
    pub open spec fn after(self, event: ServerEvent) -> ServerAction {
        match event {
            ServerEvent::Accepted => ServerAction::Greet(self.handshake()),
            ServerEvent::Greeted { written: true } => ServerAction::Subscribe,
            ServerEvent::Subscribed => ServerAction::Relay,
            _ => ServerAction::Accept,
        }
    }

    /// What the server does behind the first `i` events.
    pub open spec fn action_at(self, events: Seq<ServerEvent>, i: int) -> ServerAction {
        if i <= 0 {
            ServerAction::Accept
        } else {
            self.after(events[i - 1])
        }
    }

    /// Whether each event is a result of the action before it.
    pub open spec fn runs(self, events: Seq<ServerEvent>) -> bool {
        forall|i: int|
            0 <= i < events.len() ==> (#[trigger] events[i]).answers(self.action_at(events, i))
    }

    /// The next action of the server.
    pub fn next(&self, event: ServerEvent) -> (action: ServerAction)
        ensures
            action == self.after(event),
    {
        match event {
            ServerEvent::AcceptFailed => ServerAction::Accept,
            ServerEvent::Accepted => ServerAction::Greet(
                Message::Handshake {
                    version: PROTOCOL_VERSION,
                    width: self.width,
                    height: self.height,
                    fps: self.fps,
                },
            ),
            ServerEvent::Greeted { written } => if written {
                ServerAction::Subscribe
            } else {
                ServerAction::Accept
            },
            ServerEvent::Subscribed => ServerAction::Relay,
            ServerEvent::RelayEnded => ServerAction::Accept,
        }
    }
}

/// A client is relayed to only behind the handshake: its connection was accepted, the next thing
/// that happened was that the handshake with the server's display went out, and the server
/// subscribed to the frames behind that.
pub proof fn law_handshake_comes_first(server: Server, events: Seq<ServerEvent>, i: int)
    requires
        server.runs(events),
        0 <= i <= events.len(),
        server.action_at(events, i) is Relay,
    ensures
        i >= 3,
        events[i - 3] is Accepted,
        server.action_at(events, i - 2) == ServerAction::Greet(server.handshake()),
        events[i - 2] == (ServerEvent::Greeted { written: true }),
        events[i - 1] is Subscribed,
{
    assert(events[i - 1].answers(server.action_at(events, i - 1)));
    assert(events[i - 2].answers(server.action_at(events, i - 2)));
    assert(events[i - 3].answers(server.action_at(events, i - 3)));
}

/// A server has one client at a time: between two accepted connections the first one was given
/// up, because its handshake failed or its relay ended.
pub proof fn law_one_client_at_a_time(server: Server, events: Seq<ServerEvent>, i: int, j: int)
    requires
        server.runs(events),
        0 <= i < j < events.len(),
        events[i] is Accepted,
        events[j] is Accepted,
    ensures
        exists|k: int|
            i < k < j && (#[trigger] events[k] is RelayEnded || events[k] == (
            ServerEvent::Greeted { written: false })),
{
    assert(events[i + 1] is Greeted);
    if events[i + 1] != (ServerEvent::Greeted { written: false }) {
        assert(events[i + 1] == ServerEvent::Greeted { written: true });
        assert(events[i + 2] is Subscribed);
        assert(events[i + 3] is RelayEnded);
    }
}

/// A server outlives its clients: whatever ends a connection, it accepts the next one.
pub proof fn law_server_returns_to_listening(server: Server, event: ServerEvent)
    requires
        event is AcceptFailed || event is RelayEnded || event == (
        ServerEvent::Greeted { written: false }),
    ensures
        server.after(event) is Accept,
{
}

// ---------------------------------------------------------------------------
// Server: one client's relay
// ---------------------------------------------------------------------------

/// What happened to the relay of frames to a client.
pub enum OutboundEvent {
    /// The encoder made a frame.
    Frame(Vec<u8>),
    /// The relay was too slow and missed this many frames.
    Lagged(u64),
    /// There will be no more frames.
    Closed,
    /// A message was written to the client, or could not be.
    Written { written: bool },
}

/// What the relay of frames does next.
pub enum OutboundAction {
    /// Wait for a frame.
    Receive,
    /// Write this message to the client.
    Write(Message),
    /// End the relay.
    Stop,
}

impl OutboundEvent {
    /// Whether the event is a result of `action`.
    pub open spec fn answers(self, action: OutboundAction) -> bool {
        match self {
            OutboundEvent::Written { .. } => action is Write,
            _ => action is Receive,
        }
    }
}

/// The message that carries a frame.
pub open spec fn frame_message(data: Vec<u8>) -> Message {
    Message::VideoFrame { timestamp_ms: 0, data }
}

/// What follows `event` in the relay of frames.
pub open spec fn outbound_after(event: OutboundEvent) -> OutboundAction {
    match event {
        OutboundEvent::Frame(data) => OutboundAction::Write(frame_message(data)),
        OutboundEvent::Lagged(_) => OutboundAction::Receive,
        OutboundEvent::Closed => OutboundAction::Stop,
        OutboundEvent::Written { written } => if written {
            OutboundAction::Receive
        } else {
            OutboundAction::Stop
        },
    }
}

/// The next action of the relay of frames.
pub fn outbound_next(event: OutboundEvent) -> (action: OutboundAction)
    ensures
        action == outbound_after(event),
{
    match event {
        OutboundEvent::Frame(data) => OutboundAction::Write(
            Message::VideoFrame { timestamp_ms: 0, data },
        ),
        OutboundEvent::Lagged(_) => OutboundAction::Receive,
        OutboundEvent::Closed => OutboundAction::Stop,
        OutboundEvent::Written { written } => if written {
            OutboundAction::Receive
        } else {
            OutboundAction::Stop
        },
    }
}

/// What the relay of frames does behind the first `i` events.
pub open spec fn outbound_at(events: Seq<OutboundEvent>, i: int) -> OutboundAction {
    if i <= 0 {
        OutboundAction::Receive
    } else {
        outbound_after(events[i - 1])
    }
}

/// Whether each event of the relay of frames is a result of the action before it.
pub open spec fn outbound_runs(events: Seq<OutboundEvent>) -> bool {
    forall|i: int|
        0 <= i < events.len() ==> (#[trigger] events[i]).answers(outbound_at(events, i))
}

/// The frames that arrived in a run of the relay.
pub open spec fn frames_received(events: Seq<OutboundEvent>) -> Seq<Vec<u8>>
    decreases events.len(),
{
    if events.len() == 0 {
        Seq::empty()
    } else {
        let before = frames_received(events.drop_last());
        match events.last() {
            OutboundEvent::Frame(data) => before.push(data),
            _ => before,
        }
    }
}

/// The messages that a run of the relay wrote to the client with success.
pub open spec fn messages_written(events: Seq<OutboundEvent>) -> Seq<Message>
    decreases events.len(),
{
    if events.len() == 0 {
        Seq::empty()
    } else {
        let before = messages_written(events.drop_last());
        match (outbound_at(events, events.len() - 1), events.last()) {
            (OutboundAction::Write(msg), OutboundEvent::Written { written: true }) => before.push(
                msg,
            ),
            _ => before,
        }
    }
}

/// The client gets the frames that the relay received, each as one message and in order; only
/// the newest can be missing, while it is being written or where writing it failed.
pub proof fn law_frames_are_relayed_in_order(events: Seq<OutboundEvent>)
    requires
        outbound_runs(events),
    ensures
        ({
            let frames = frames_received(events);
            let sent = messages_written(events);
            &&& sent.len() <= frames.len() <= sent.len() + 1
            &&& forall|i: int|
                0 <= i < sent.len() ==> #[trigger] sent[i] == frame_message(frames[i])
            &&& frames.len() > sent.len() <==> events.len() > 0 && (events.last() is Frame
                || events.last() == (OutboundEvent::Written { written: false }))
        }),
    decreases events.len(),
{
    if events.len() > 0 {
        let n = events.len() as int;
        let before = events.drop_last();
        assert forall|i: int| 0 <= i < before.len() implies (#[trigger] before[i]).answers(
            outbound_at(before, i),
        ) by {
            assert(events[i].answers(outbound_at(events, i)));
        }
        law_frames_are_relayed_in_order(before);
        assert(events[n - 1].answers(outbound_at(events, n - 1)));
        if n >= 2 {
            assert(before.last() == events[n - 2]);
        }
    }
}

/// The relay of frames ends with the first write that fails and with the end of the frames:
/// nothing happens behind either.
pub proof fn law_outbound_stops(events: Seq<OutboundEvent>, i: int)
    requires
        outbound_runs(events),
        0 <= i < events.len(),
        events[i] is Closed || events[i] == (OutboundEvent::Written { written: false }),
    ensures
        i == events.len() - 1,
{
    if i + 1 < events.len() {
        assert(outbound_at(events, i + 1) is Stop);
        assert(!events[i + 1].answers(OutboundAction::Stop));
    }
}

/// What happened to the relay of inputs from a client.
pub enum InboundEvent {
    /// The client sent a message.
    Received(Message),
    /// No message could be read.
    ReadFailed,
    /// A message was handed on, or nobody was there to take it. `last` tells whether it was the
    /// client's farewell.
    Forwarded { delivered: bool, last: bool },
}

/// What the relay of inputs does next.
pub enum InboundAction {
    /// Wait for a message from the client.
    Read,
    /// Hand this message on. `last` tells whether it is the client's farewell.
    Forward { msg: Message, last: bool },
    /// End the relay.
    Stop,
}

impl InboundEvent {
    /// Whether the event is a result of `action`.
    pub open spec fn answers(self, action: InboundAction) -> bool {
        match (self, action) {
            (
                InboundEvent::Forwarded { last, .. },
                InboundAction::Forward { last: asked, .. },
            ) => last == asked,
            (InboundEvent::Forwarded { .. }, _) => false,
            (_, action) => action is Read,
        }
    }
}

/// What follows `event` in the relay of inputs.
pub open spec fn inbound_after(event: InboundEvent) -> InboundAction {
    match event {
        InboundEvent::Received(msg) => InboundAction::Forward { msg, last: msg is Disconnect },
        InboundEvent::ReadFailed => InboundAction::Stop,
        InboundEvent::Forwarded { delivered, last } => if delivered && !last {
            InboundAction::Read
        } else {
            InboundAction::Stop
        },
    }
}

/// The next action of the relay of inputs.
pub fn inbound_next(event: InboundEvent) -> (action: InboundAction)
    ensures
        action == inbound_after(event),
{
    match event {
        InboundEvent::Received(msg) => {
            let last = msg.is_disconnect();
            InboundAction::Forward { msg, last }
        },
        InboundEvent::ReadFailed => InboundAction::Stop,
        InboundEvent::Forwarded { delivered, last } => if !delivered || last {
            InboundAction::Stop
        } else {
            InboundAction::Read
        },
    }
}

/// What the relay of inputs does behind the first `i` events.
pub open spec fn inbound_at(events: Seq<InboundEvent>, i: int) -> InboundAction {
    if i <= 0 {
        InboundAction::Read
    } else {
        inbound_after(events[i - 1])
    }
}

/// Whether each event of the relay of inputs is a result of the action before it.
pub open spec fn inbound_runs(events: Seq<InboundEvent>) -> bool {
    forall|i: int|
        0 <= i < events.len() ==> (#[trigger] events[i]).answers(inbound_at(events, i))
}

/// A client's farewell is handed on as its last message: nothing more is read from it.
pub proof fn law_disconnect_ends_inbound(events: Seq<InboundEvent>, i: int)
    requires
        inbound_runs(events),
        0 <= i < events.len(),
        events[i] == InboundEvent::Received(Message::Disconnect),
    ensures
        inbound_at(events, i + 1) == (InboundAction::Forward {
            msg: Message::Disconnect,
            last: true,
        }),
        events.len() <= i + 2,
{
    if i + 2 < events.len() {
        assert(events[i + 1] is Forwarded);
        assert(inbound_at(events, i + 2) is Stop);
        assert(!events[i + 2].answers(InboundAction::Stop));
    }
}

/// The messages that the client sent.
pub open spec fn inputs_received(events: Seq<InboundEvent>) -> Seq<Message>
    decreases events.len(),
{
    if events.len() == 0 {
        Seq::empty()
    } else {
        let before = inputs_received(events.drop_last());
        match events.last() {
            InboundEvent::Received(msg) => before.push(msg),
            _ => before,
        }
    }
}

/// The messages that were handed on with success.
pub open spec fn inputs_forwarded(events: Seq<InboundEvent>) -> Seq<Message>
    decreases events.len(),
{
    if events.len() == 0 {
        Seq::empty()
    } else {
        let before = inputs_forwarded(events.drop_last());
        match (inbound_at(events, events.len() - 1), events.last()) {
            (
                InboundAction::Forward { msg, .. },
                InboundEvent::Forwarded { delivered: true, .. },
            ) => before.push(msg),
            _ => before,
        }
    }
}

/// The messages of a client are handed on as they came and in order; only the newest can be
/// missing, while it is being handed on or where nobody was there to take it.
pub proof fn law_inputs_are_forwarded_in_order(events: Seq<InboundEvent>)
    requires
        inbound_runs(events),
    ensures
        ({
            let received = inputs_received(events);
            let forwarded = inputs_forwarded(events);
            &&& forwarded.len() <= received.len() <= forwarded.len() + 1
            &&& forall|i: int|
                0 <= i < forwarded.len() ==> #[trigger] forwarded[i] == received[i]
            &&& received.len() > forwarded.len() <==> events.len() > 0 && (events.last() is Received
                || (events.last() matches InboundEvent::Forwarded { delivered, .. } && !delivered))
        }),
    decreases events.len(),
{
    if events.len() > 0 {
        let n = events.len() as int;
        let before = events.drop_last();
        assert forall|i: int| 0 <= i < before.len() implies (#[trigger] before[i]).answers(
            inbound_at(before, i),
        ) by {
            assert(events[i].answers(inbound_at(events, i)));
        }
        law_inputs_are_forwarded_in_order(before);
        assert(events[n - 1].answers(inbound_at(events, n - 1)));
        if n >= 2 {
            assert(before.last() == events[n - 2]);
        }
    }
}

// ---------------------------------------------------------------------------
// Server: frames and subscriptions
// ---------------------------------------------------------------------------

/// A step in the life of a server whose encoder makes frames at any time.
pub enum StreamStep {
    /// The encoder made a frame.
    Made(Vec<u8>),
    /// Something happened to the server.
    Server(ServerEvent),
    /// Something happened to the relay of frames to the server's client.
    Outbound(OutboundEvent),
}

/// What happened to the server.
pub open spec fn server_events(steps: Seq<StreamStep>) -> Seq<ServerEvent>
    decreases steps.len(),
{
    if steps.len() == 0 {
        Seq::empty()
    } else {
        let before = server_events(steps.drop_last());
        match steps.last() {
            StreamStep::Server(event) => before.push(event),
            _ => before,
        }
    }
}

/// The frames that were made since the server last subscribed.
pub open spec fn made_since(steps: Seq<StreamStep>) -> Seq<Vec<u8>>
    decreases steps.len(),
{
    if steps.len() == 0 {
        Seq::empty()
    } else {
        let before = made_since(steps.drop_last());
        match steps.last() {
            StreamStep::Made(data) => before.push(data),
            StreamStep::Server(ServerEvent::Subscribed) => Seq::empty(),
            _ => before,
        }
    }
}

/// What happened to the relay of frames since the server last subscribed.
pub open spec fn outbound_since(steps: Seq<StreamStep>) -> Seq<OutboundEvent>
    decreases steps.len(),
{
    if steps.len() == 0 {
        Seq::empty()
    } else {
        let before = outbound_since(steps.drop_last());
        match steps.last() {
            StreamStep::Outbound(event) => before.push(event),
            StreamStep::Server(ServerEvent::Subscribed) => Seq::empty(),
            _ => before,
        }
    }
}

/// The frames that wait in the server's subscription, the oldest first: a subscription begins
/// empty, gets each frame that is made from then on, hands out the oldest, and drops the oldest
/// where the relay lags.
pub open spec fn subscribed(steps: Seq<StreamStep>) -> Seq<Vec<u8>>
    decreases steps.len(),
{
    if steps.len() == 0 {
        Seq::empty()
    } else {
        let before = subscribed(steps.drop_last());
        match steps.last() {
            StreamStep::Made(data) => before.push(data),
            StreamStep::Server(ServerEvent::Subscribed) => Seq::empty(),
            StreamStep::Outbound(OutboundEvent::Frame(_)) => before.drop_first(),
            StreamStep::Outbound(OutboundEvent::Lagged(missed)) => before.skip(missed as int),
            _ => before,
        }
    }
}

/// How many of the frames since the server last subscribed have left its subscription.
pub open spec fn left_since(steps: Seq<StreamStep>) -> nat
    decreases steps.len(),
{
    if steps.len() == 0 {
        0
    } else {
        let before = left_since(steps.drop_last());
        match steps.last() {
            StreamStep::Server(ServerEvent::Subscribed) => 0,
            StreamStep::Outbound(OutboundEvent::Frame(_)) => before + 1,
            StreamStep::Outbound(OutboundEvent::Lagged(missed)) => before + missed as nat,
            _ => before,
        }
    }
}

/// Which of the frames since the server last subscribed its relay received.
pub open spec fn origins(steps: Seq<StreamStep>) -> Seq<nat>
    decreases steps.len(),
{
    if steps.len() == 0 {
        Seq::empty()
    } else {
        let before = origins(steps.drop_last());
        match steps.last() {
            StreamStep::Server(ServerEvent::Subscribed) => Seq::empty(),
            StreamStep::Outbound(OutboundEvent::Frame(_)) => before.push(
                left_since(steps.drop_last()),
            ),
            _ => before,
        }
    }
}

/// Whether `step` can follow `steps`: what happens to the server and to its relay is a result of
/// their last action, the relay is at work only while the server relays, what it receives is
/// the oldest frame of the subscription, and it lags only where the subscription holds more
/// than `capacity` frames.
pub open spec fn can_follow(
    server: Server,
    capacity: nat,
    steps: Seq<StreamStep>,
    step: StreamStep,
) -> bool {
    let happened = server_events(steps);
    let action = server.action_at(happened, happened.len() as int);
    let relayed = outbound_since(steps);
    let waiting = subscribed(steps);
    match step {
        StreamStep::Made(_) => true,
        StreamStep::Server(event) => event.answers(action),
        StreamStep::Outbound(event) => {
            &&& action is Relay
            &&& event.answers(outbound_at(relayed, relayed.len() as int))
            &&& event matches OutboundEvent::Frame(data) ==> waiting.len() > 0 && data == waiting[0]
            &&& event matches OutboundEvent::Lagged(missed) ==> missed <= waiting.len()
                && waiting.len() > capacity
        },
    }
}

/// Whether each step can follow the ones before it.
pub open spec fn streams(server: Server, capacity: nat, steps: Seq<StreamStep>) -> bool
    decreases steps.len(),
{
    steps.len() > 0 ==> {
        &&& streams(server, capacity, steps.drop_last())
        &&& can_follow(server, capacity, steps.drop_last(), steps.last())
    }
}

/// A client never gets a frame from before the server subscribed for it. Each message that is
/// written to it behind the handshake carries a frame that was made since, and later messages
/// carry later frames.
pub proof fn law_stale_frames_are_not_sent(server: Server, capacity: nat, steps: Seq<StreamStep>)
    requires
        streams(server, capacity, steps),
    ensures
        ({
            let made = made_since(steps);
            let from = origins(steps);
            let sent = messages_written(outbound_since(steps));
            &&& server.runs(server_events(steps))
            &&& outbound_runs(outbound_since(steps))
            &&& sent.len() <= from.len()
            &&& forall|i: int|
                0 <= i < from.len() ==> (#[trigger] from[i]) < made.len()
            &&& forall|i: int|
                0 <= i < sent.len() ==> #[trigger] sent[i] == frame_message(made[from[i] as int])
            &&& forall|i: int, j: int| 0 <= i < j < from.len() ==> from[i] < from[j]
        }),
{
    lemma_subscription(server, capacity, steps);
    lemma_stream_runs(server, capacity, steps);
    law_frames_are_relayed_in_order(outbound_since(steps));
    let made = made_since(steps);
    let from = origins(steps);
    let sent = messages_written(outbound_since(steps));
    let received = frames_received(outbound_since(steps));
    assert forall|i: int| 0 <= i < sent.len() implies #[trigger] sent[i] == frame_message(
        made[from[i] as int],
    ) by {
        assert(received[i] == made[from[i] as int]);
    }
}

/// A client gets all frames since the server subscribed for it, where they fit in the
/// subscription: the messages written to it carry them from the first one on and in order, and
/// where the relay waits for a frame and none is left in the subscription, none is missing.
pub proof fn law_subscribed_frames_are_sent(server: Server, capacity: nat, steps: Seq<StreamStep>)
    requires
        streams(server, capacity, steps),
        made_since(steps).len() <= capacity,
    ensures
        ({
            let made = made_since(steps);
            let relayed = outbound_since(steps);
            let sent = messages_written(relayed);
            &&& sent.len() <= made.len()
            &&& forall|i: int| 0 <= i < sent.len() ==> #[trigger] sent[i] == frame_message(made[i])
            &&& outbound_at(relayed, relayed.len() as int) is Receive && subscribed(steps).len()
                == 0 ==> sent.len() == made.len()
        }),
{
    law_stale_frames_are_not_sent(server, capacity, steps);
    lemma_subscription(server, capacity, steps);
    lemma_no_lag(server, capacity, steps);
    law_frames_are_relayed_in_order(outbound_since(steps));
    let from = origins(steps);
    let sent = messages_written(outbound_since(steps));
    assert forall|i: int| 0 <= i < sent.len() implies #[trigger] sent[i] == frame_message(
        made_since(steps)[i],
    ) by {
        assert(from[i] == i);
    }
}

/// What waits in a subscription, and what was received from it.
proof fn lemma_subscription(server: Server, capacity: nat, steps: Seq<StreamStep>)
    requires
        streams(server, capacity, steps),
    ensures
        ({
            let made = made_since(steps);
            let left = left_since(steps);
            let from = origins(steps);
            let received = frames_received(outbound_since(steps));
            &&& left <= made.len()
            &&& subscribed(steps) == made.skip(left as int)
            &&& from.len() == received.len()
            &&& forall|i: int|
                0 <= i < from.len() ==> (#[trigger] from[i]) < left && received[i]
                    == made[from[i] as int]
            &&& forall|i: int, j: int| 0 <= i < j < from.len() ==> from[i] < from[j]
        }),
    decreases steps.len(),
{
    if steps.len() > 0 {
        let before = steps.drop_last();
        lemma_subscription(server, capacity, before);
        let made = made_since(before);
        let left = left_since(before);
        match steps.last() {
            StreamStep::Made(data) => {
                assert(made.push(data).skip(left as int) =~= made.skip(left as int).push(data));
            },
            StreamStep::Server(_) => {},
            StreamStep::Outbound(event) => {
                let relayed = outbound_since(before);
                assert(relayed.push(event).drop_last() =~= relayed);
                match event {
                    OutboundEvent::Frame(_) => {
                        assert(made.skip(left as int).drop_first() =~= made.skip(left as int + 1));
                    },
                    OutboundEvent::Lagged(missed) => {
                        assert(made.skip(left as int).skip(missed as int) =~= made.skip(
                            left as int + missed as int,
                        ));
                    },
                    _ => {},
                }
            },
        }
    }
    assert(steps.len() == 0 ==> subscribed(steps) =~= made_since(steps).skip(0));
}

/// The server and the relay of its client run as they should.
proof fn lemma_stream_runs(server: Server, capacity: nat, steps: Seq<StreamStep>)
    requires
        streams(server, capacity, steps),
    ensures
        server.runs(server_events(steps)),
        outbound_runs(outbound_since(steps)),
    decreases steps.len(),
{
    if steps.len() > 0 {
        let before = steps.drop_last();
        lemma_stream_runs(server, capacity, before);
        match steps.last() {
            StreamStep::Made(_) => {},
            StreamStep::Server(event) => {
                let was = server_events(before);
                let now = was.push(event);
                assert forall|i: int| 0 <= i < now.len() implies (#[trigger] now[i]).answers(
                    server.action_at(now, i),
                ) by {
                    assert(server.action_at(now, i) == server.action_at(was, i));
                    if i < was.len() {
                        assert(was[i].answers(server.action_at(was, i)));
                    }
                }
            },
            StreamStep::Outbound(event) => {
                let was = outbound_since(before);
                let now = was.push(event);
                assert forall|i: int| 0 <= i < now.len() implies (#[trigger] now[i]).answers(
                    outbound_at(now, i),
                ) by {
                    assert(outbound_at(now, i) == outbound_at(was, i));
                    if i < was.len() {
                        assert(was[i].answers(outbound_at(was, i)));
                    }
                }
            },
        }
    }
}

/// Where the frames fit in the subscription, the relay receives them from the first one on.
proof fn lemma_no_lag(server: Server, capacity: nat, steps: Seq<StreamStep>)
    requires
        streams(server, capacity, steps),
        made_since(steps).len() <= capacity,
    ensures
        left_since(steps) == origins(steps).len(),
        forall|i: int| 0 <= i < origins(steps).len() ==> #[trigger] origins(steps)[i] == i,
    decreases steps.len(),
{
    if steps.len() > 0 {
        let before = steps.drop_last();
        if !(steps.last() == StreamStep::Server(ServerEvent::Subscribed)) {
            lemma_no_lag(server, capacity, before);
            lemma_subscription(server, capacity, before);
        }
    }
}

// ---------------------------------------------------------------------------
// What each event leads to
// ---------------------------------------------------------------------------

/// A server greets exactly a client that just connected, with version 1 and its own width,
/// height and frame rate, subscribes exactly behind a greeting that went out, relays exactly
/// behind the subscription, and accepts a client behind everything else.
pub proof fn law_server_serves_in_turn(server: Server, event: ServerEvent)
    ensures
        ({
            let action = server.after(event);
            &&& action is Greet <==> event is Accepted
            &&& action matches ServerAction::Greet(msg) ==> msg matches Message::Handshake {
                version,
                width,
                height,
                fps,
            } && version == 1 && width == server.width && height == server.height && fps
                == server.fps
            &&& action is Subscribe <==> event == (ServerEvent::Greeted { written: true })
            &&& action is Relay <==> event is Subscribed
            &&& action is Accept <==> event is AcceptFailed || event is RelayEnded || event == (
            ServerEvent::Greeted { written: false })
        }),
{
}

/// The relay of frames writes exactly what it received, with no time, waits for the next frame
/// behind each that was written and behind a lag, and ends exactly where a write failed or there
/// are no more frames.
pub proof fn law_outbound_goes_on(event: OutboundEvent)
    ensures
        ({
            let action = outbound_after(event);
            &&& action is Write <==> event is Frame
            &&& action matches OutboundAction::Write(msg) ==> event matches OutboundEvent::Frame(
                data,
            ) && msg matches Message::VideoFrame { timestamp_ms, data: sent } && sent == data
                && timestamp_ms == 0
            &&& action is Receive <==> event is Lagged || event == (OutboundEvent::Written {
                written: true,
            })
            &&& action is Stop <==> event is Closed || event == (OutboundEvent::Written {
                written: false,
            })
        }),
{
}

/// The relay of inputs hands on each message as it is, and as the last one exactly where it is
/// a farewell. Over any run it ends exactly behind a failed read, a message that nobody took and
/// a farewell; behind any other message that was taken it reads on.
pub proof fn law_inbound_goes_on(events: Seq<InboundEvent>)
    requires
        inbound_runs(events),
        events.len() > 0,
    ensures
        ({
            let n = events.len() as int;
            let action = inbound_at(events, n);
            match events.last() {
                InboundEvent::Received(msg) => action matches InboundAction::Forward {
                    msg: handed,
                    last,
                } && handed == msg && last == (msg == Message::Disconnect),
                InboundEvent::ReadFailed => action is Stop,
                InboundEvent::Forwarded { delivered, .. } => {
                    &&& n >= 2 && events[n - 2] is Received
                    &&& action is Stop <==> !delivered || events[n - 2] == InboundEvent::Received(
                        Message::Disconnect,
                    )
                    &&& action is Read <==> delivered && events[n - 2] != InboundEvent::Received(
                        Message::Disconnect,
                    )
                },
            }
        }),
{
    let n = events.len() as int;
    assert(events[n - 1].answers(inbound_at(events, n - 1)));
    if events.last() is Forwarded {
        assert(inbound_at(events, n - 1) is Forward);
        assert(n >= 2);
        assert(inbound_at(events, n - 1) == inbound_after(events[n - 2]));
    }
}

} // verus!
