//! What a client does next: connecting, retrying, and relaying once it is connected.

use vstd::prelude::*;

use crate::network;
use crate::network::Server;
use crate::protocol;
use crate::protocol::{Message, MessageView, ProtocolError};
use crate::text;

verus! {

/// How long a client waits before it tries again, in seconds.
pub const RETRY_DELAY_SECS: u64 = 1;

/// Where a client stands.
#[derive(Debug, Clone, Copy, PartialEq, Eq, Structural)]
pub struct Client {
    /// The number of the current attempt to connect, from 1 on.
    pub attempt: u32,
    /// How many further attempts may follow the first.
    pub max_retries: u32,
    /// Whether the resolution of the server was announced.
    pub announced: bool,
}

/// Why a connection failed.
pub enum ClientError {
    /// The connection could not be opened.
    Connect,
    /// The handshake could not be read.
    ReadHandshake,
    /// The first message was no handshake.
    UnexpectedMessage(Message),
    /// A message could not be read, or an input not be written, later on.
    ConnectionLost,
}

impl ClientError {
    /// The error in words. `place` is what the coordinates of a `MouseMove` are in words.
    pub open spec fn message(self, place: Seq<char>) -> Seq<char> {
        match self {
            ClientError::Connect => "TCP connect"@,
            ClientError::ReadHandshake => "read handshake"@,
            ClientError::UnexpectedMessage(msg) => "expected Handshake, got "@ + msg@.words(place),
            ClientError::ConnectionLost => "connection lost"@,
        }
    }

    /// The error in words. `place` is what the coordinates of a `MouseMove` are in words.
    pub fn describe(&self, place: &str) -> (r: String)
        ensures
            r@ == self.message(place@),
    {
        let mut out = String::new();
        match self {
            ClientError::Connect => out.append("TCP connect"),
            ClientError::ReadHandshake => out.append("read handshake"),
            ClientError::UnexpectedMessage(msg) => {
                out.append("expected Handshake, got ");
                msg.push_words(&mut out, place);
            },
            ClientError::ConnectionLost => out.append("connection lost"),
        }
        assert(out@ =~= self.message(place@));
        out
    }
}

/// The address of a server.
pub fn server_address(host: &str, port: u16) -> (r: String)
    ensures
        r@ == host@ + ":"@ + text::decimal(port as nat),
{
    let mut out = String::new();
    out.append(host);
    out.append(":");
    text::push_decimal(&mut out, port as u64);
    assert(out@ =~= host@ + ":"@ + text::decimal(port as nat));
    out
}

/// What a client that gives up reports.
pub fn gave_up(addr: &str, max_retries: u32) -> (r: String)
    ensures
        r@ == "failed to connect to "@ + addr@ + " after "@ + text::decimal(max_retries as nat)
            + " attempts"@,
{
    let mut out = String::new();
    out.append("failed to connect to ");
    out.append(addr);
    out.append(" after ");
    text::push_decimal(&mut out, max_retries as u64);
    out.append(" attempts");
    assert(out@ =~= "failed to connect to "@ + addr@ + " after "@ + text::decimal(
        max_retries as nat,
    ) + " attempts"@);
    out
}

/// What happened to a client.
pub enum ClientEvent {
    /// The connection was opened, or could not be.
    Opened { opened: bool },
    /// The first message from the server, or `None` where it could not be read.
    Greeted(Option<Message>),
    /// The resolution was announced.
    Announced,
    /// A message from the server, or `None` where it could not be read.
    Received(Option<Message>),
    /// An input of the local user, or `None` where there will be no more.
    Input(Option<Message>),
    /// A frame was handed on, or nobody was there to take it.
    FrameDelivered { delivered: bool },
    /// An input was written to the server, or could not be. `last` tells whether it was the
    /// farewell.
    InputWritten { written: bool, last: bool },
    /// The wait before the next attempt is over.
    Waited,
}

/// What a client does next.
pub enum ClientAction {
    /// Open a connection to the server.
    Open,
    /// Read the first message from the server.
    ReadHandshake,
    /// Announce the resolution of the server's display.
    Announce { width: u32, height: u32 },
    /// Wait for a message from the server or an input of the local user, whichever comes first.
    Relay,
    /// Hand on the data of a frame.
    DeliverFrame(Vec<u8>),
    /// Write an input to the server. `last` tells whether it is the farewell.
    WriteInput { msg: Message, last: bool },
    /// Wait `RETRY_DELAY_SECS`: attempt number `attempt` failed.
    Retry { attempt: u32, error: ClientError },
    /// End with success: the connection was closed.
    Finish,
    /// End with this error: the last attempt failed.
    GiveUp { error: ClientError },
}

impl ClientEvent {
    /// Whether the event is a result of `action`.
    pub open spec fn answers(self, action: ClientAction) -> bool {
        match (self, action) {
            (ClientEvent::Opened { .. }, ClientAction::Open) => true,
            (ClientEvent::Greeted(_), ClientAction::ReadHandshake) => true,
            (ClientEvent::Announced, ClientAction::Announce { .. }) => true,
            (ClientEvent::Received(_), ClientAction::Relay) => true,
            (ClientEvent::Input(_), ClientAction::Relay) => true,
            (ClientEvent::FrameDelivered { .. }, ClientAction::DeliverFrame(_)) => true,
            (
                ClientEvent::InputWritten { last, .. },
                ClientAction::WriteInput { last: asked, .. },
            ) => last == asked,
            (ClientEvent::Waited, ClientAction::Retry { .. }) => true,
            _ => false,
        }
    }

    /// Whether the event ends an attempt with an error.
    pub open spec fn fails(self) -> bool {
        match self {
            ClientEvent::Opened { opened } => !opened,
            ClientEvent::Greeted(None) => true,
            ClientEvent::Greeted(Some(msg)) => !(msg is Handshake),
            ClientEvent::Received(None) => true,
            ClientEvent::InputWritten { written, last } => !written && !last,
            _ => false,
        }
    }

    /// Whether the event ends an attempt with an error.
    pub fn is_failure(&self) -> (r: bool)
        ensures
            r == self.fails(),
    {
        match self {
            ClientEvent::Opened { opened } => !*opened,
            ClientEvent::Greeted(Some(Message::Handshake { .. })) => false,
            ClientEvent::Greeted(_) => true,
            ClientEvent::Received(None) => true,
            ClientEvent::InputWritten { written, last } => !*written && !*last,
            _ => false,
        }
    }

    /// Whether the event is a handshake from the server.
    pub open spec fn is_handshake(self) -> bool {
        self matches ClientEvent::Greeted(Some(msg)) && msg is Handshake
    }
}

impl Client {
    /// A client before its first attempt.
    pub open spec fn start(max_retries: u32) -> Client {
        Client { attempt: 1, max_retries, announced: false }
    }

    /// A client that makes up to `max_retries` further attempts behind a failed first one. It
    /// begins with `ClientAction::Open`.
    pub fn new(max_retries: u32) -> (client: Client)
        ensures
            client == Client::start(max_retries),
    {
        Client { attempt: 1, max_retries, announced: false }
    }

    /// Whether a further attempt could be counted.
    pub open spec fn can_count(self) -> bool {
        self.attempt < u32::MAX || self.max_retries < u32::MAX
    }

    /// What follows an attempt that failed with `error`.
    pub open spec fn after_failure(self, error: ClientError) -> (Client, ClientAction) {
        if self.attempt > self.max_retries {
            (self, ClientAction::GiveUp { error })
        } else {
            (
                Client { attempt: (self.attempt + 1) as u32, ..self },
                ClientAction::Retry { attempt: self.attempt, error },
            )
        }
    }

    /// What follows `event`.
    pub open spec fn after(self, event: ClientEvent) -> (Client, ClientAction) {
        match event {
            ClientEvent::Opened { opened } => if opened {
                (self, ClientAction::ReadHandshake)
            } else {
                self.after_failure(ClientError::Connect)
            },
            ClientEvent::Greeted(None) => self.after_failure(ClientError::ReadHandshake),
            ClientEvent::Greeted(Some(msg)) => match msg {
                Message::Handshake { width, height, .. } => if self.announced {
                    (self, ClientAction::Relay)
                } else {
                    (
                        Client { announced: true, ..self },
                        ClientAction::Announce { width, height },
                    )
                },
                other => self.after_failure(ClientError::UnexpectedMessage(other)),
            },
            ClientEvent::Announced => (self, ClientAction::Relay),
            ClientEvent::Received(None) => self.after_failure(ClientError::ConnectionLost),
            ClientEvent::Received(Some(msg)) => match msg {
                Message::VideoFrame { data, .. } => (self, ClientAction::DeliverFrame(data)),
                Message::Disconnect => (self, ClientAction::Finish),
                _ => (self, ClientAction::Relay),
            },
            ClientEvent::Input(None) => (self, ClientAction::Finish),
            ClientEvent::Input(Some(msg)) => (
                self,
                ClientAction::WriteInput { msg, last: msg is Disconnect },
            ),
            ClientEvent::FrameDelivered { delivered } => if delivered {
                (self, ClientAction::Relay)
            } else {
                (self, ClientAction::Finish)
            },
            ClientEvent::InputWritten { written, last } => if last {
                (self, ClientAction::Finish)
            } else if written {
                (self, ClientAction::Relay)
            } else {
                self.after_failure(ClientError::ConnectionLost)
            },
            ClientEvent::Waited => (self, ClientAction::Open),
        }
    }

    /// Counts a failed attempt, and decides whether another one follows.
    fn fail(&mut self, error: ClientError) -> (action: ClientAction)
        requires
            old(self).can_count(),
        ensures
            (*final(self), action) == old(self).after_failure(error),
    {
        let attempt: u32 = self.attempt;
        if attempt > self.max_retries {
            return ClientAction::GiveUp { error };
        }
        self.attempt = attempt + 1;
        ClientAction::Retry { attempt, error }
    }

    /// Whether the client can go on behind `event`: where it fails, a further attempt can be
    /// counted.
    pub fn can_take(&self, event: &ClientEvent) -> (r: bool)
        ensures
            r == (event.fails() ==> self.can_count()),
    {
        !event.is_failure() || self.attempt < u32::MAX || self.max_retries < u32::MAX
    }

    /// The next action of the client.
    pub fn next(&mut self, event: ClientEvent) -> (action: ClientAction)
        requires
            event.fails() ==> old(self).can_count(),
        ensures
            (*final(self), action) == old(self).after(event),
    {
        match event {
            ClientEvent::Opened { opened } => if opened {
                ClientAction::ReadHandshake
            } else {
                self.fail(ClientError::Connect)
            },
            ClientEvent::Greeted(first) => match first {
                Some(Message::Handshake { width, height, .. }) => if self.announced {
                    ClientAction::Relay
                } else {
                    self.announced = true;
                    ClientAction::Announce { width, height }
                },
                Some(other) => self.fail(ClientError::UnexpectedMessage(other)),
                None => self.fail(ClientError::ReadHandshake),
            },
            ClientEvent::Announced => ClientAction::Relay,
            ClientEvent::Received(received) => match received {
                Some(Message::VideoFrame { data, .. }) => ClientAction::DeliverFrame(data),
                Some(Message::Disconnect) => ClientAction::Finish,
                Some(_) => ClientAction::Relay,
                None => self.fail(ClientError::ConnectionLost),
            },
            ClientEvent::Input(input) => match input {
                Some(msg) => {
                    let last = msg.is_disconnect();
                    ClientAction::WriteInput { msg, last }
                },
                None => ClientAction::Finish,
            },
            ClientEvent::FrameDelivered { delivered } => if delivered {
                ClientAction::Relay
            } else {
                ClientAction::Finish
            },
            ClientEvent::InputWritten { written, last } => if last {
                ClientAction::Finish
            } else if written {
                ClientAction::Relay
            } else {
                self.fail(ClientError::ConnectionLost)
            },
            ClientEvent::Waited => ClientAction::Open,
        }
    }

    /// Where a client stands behind a series of events, and what it does then.
    pub open spec fn after_all(max_retries: u32, events: Seq<ClientEvent>) -> (Client, ClientAction)
        decreases events.len(),
    {
        if events.len() == 0 {
            (Client::start(max_retries), ClientAction::Open)
        } else {
            Client::after_all(max_retries, events.drop_last()).0.after(events.last())
        }
    }

    /// Whether each event is a result of the action before it.
    pub open spec fn runs(max_retries: u32, events: Seq<ClientEvent>) -> bool {
        forall|i: int|
            0 <= i < events.len() ==> (#[trigger] events[i]).answers(
                Client::after_all(max_retries, events.take(i)).1,
            )
    }
}

/// How many of the events end an attempt with an error.
pub open spec fn failures(events: Seq<ClientEvent>) -> nat
    decreases events.len(),
{
    if events.len() == 0 {
        0
    } else {
        failures(events.drop_last()) + if events.last().fails() {
            1nat
        } else {
            0nat
        }
    }
}

/// A run without its last event is a run, and the last event is a result of its last action.
proof fn lemma_run_before(max_retries: u32, events: Seq<ClientEvent>)
    requires
        Client::runs(max_retries, events),
        events.len() > 0,
    ensures
        Client::runs(max_retries, events.drop_last()),
        events.last().answers(Client::after_all(max_retries, events.drop_last()).1),
{
    let before = events.drop_last();
    assert forall|i: int| 0 <= i < before.len() implies (#[trigger] before[i]).answers(
        Client::after_all(max_retries, before.take(i)).1,
    ) by {
        assert(before.take(i) =~= events.take(i));
        assert(events[i].answers(Client::after_all(max_retries, events.take(i)).1));
    }
    let n = events.len() - 1;
    assert(events.take(n) =~= before);
    assert(events[n].answers(Client::after_all(max_retries, events.take(n)).1));
}

/// A client makes one attempt and up to `max_retries` further ones. It tries again behind each
/// failure while it has attempts left, and gives up with the failure behind which it has none.
pub proof fn law_retries_are_bounded(max_retries: u32, events: Seq<ClientEvent>)
    requires
        Client::runs(max_retries, events),
        max_retries < u32::MAX || failures(events) < u32::MAX,
    ensures
        ({
            let (client, action) = Client::after_all(max_retries, events);
            &&& client.max_retries == max_retries
            &&& failures(events) <= max_retries + 1
            &&& action is GiveUp <==> failures(events) == max_retries + 1
            &&& !(action is GiveUp) ==> client.attempt == failures(events) + 1
            &&& action is Retry <==> events.len() > 0 && events.last().fails() && failures(events)
                <= max_retries
        }),
    decreases events.len(),
{
    if events.len() > 0 {
        lemma_run_before(max_retries, events);
        law_retries_are_bounded(max_retries, events.drop_last());
    }
}

/// How many handshakes are among the events.
pub open spec fn handshakes(events: Seq<ClientEvent>) -> nat
    decreases events.len(),
{
    if events.len() == 0 {
        0
    } else {
        handshakes(events.drop_last()) + if events.last().is_handshake() {
            1nat
        } else {
            0nat
        }
    }
}

/// The resolution is announced behind the first handshake, whichever attempt it came in, and
/// never again.
pub proof fn law_resolution_is_announced_once(max_retries: u32, events: Seq<ClientEvent>)
    requires
        Client::runs(max_retries, events),
    ensures
        ({
            let (client, action) = Client::after_all(max_retries, events);
            &&& client.announced <==> handshakes(events) > 0
            &&& action is Announce <==> events.len() > 0 && events.last().is_handshake()
                && handshakes(events) == 1
        }),
    decreases events.len(),
{
    if events.len() > 0 {
        lemma_run_before(max_retries, events);
        law_resolution_is_announced_once(max_retries, events.drop_last());
    }
}

/// Where a handshake is, behind which no attempt failed and no new one began.
pub open spec fn connected_since(events: Seq<ClientEvent>, k: int) -> bool {
    &&& 0 <= k < events.len()
    &&& events[k].is_handshake()
    &&& forall|j: int|
        k < j < events.len() ==> !(#[trigger] events[j]).fails() && !(events[j] is Opened)
}

/// Whether an action belongs to a connection behind its handshake.
pub open spec fn is_connected_action(action: ClientAction) -> bool {
    match action {
        ClientAction::Announce { .. } => true,
        ClientAction::Relay => true,
        ClientAction::DeliverFrame(_) => true,
        ClientAction::WriteInput { .. } => true,
        ClientAction::Finish => true,
        _ => false,
    }
}

/// One step of a connection: behind an action that belongs to a greeted connection, the event
/// was the handshake, or the connection was a greeted one before it.
proof fn lemma_stays_connected(client: Client, action: ClientAction, event: ClientEvent)
    requires
        event.answers(action),
        is_connected_action(client.after(event).1),
    ensures
        event.is_handshake() || (is_connected_action(action) && !event.fails() && !(
        event is Opened)),
{
}

/// A connection lasts over an event that neither fails nor opens another one.
proof fn lemma_connected_extends(events: Seq<ClientEvent>, k: int)
    requires
        events.len() > 0,
        connected_since(events.drop_last(), k),
        !events.last().fails(),
        !(events.last() is Opened),
    ensures
        connected_since(events, k),
{
    let before = events.drop_last();
    assert(before[k] == events[k]);
    assert forall|j: int| k < j < events.len() implies !(#[trigger] events[j]).fails() && !(
    events[j] is Opened) by {
        if j < events.len() - 1 {
            assert(before[j] == events[j]);
        }
    }
}

/// A client relays, hands on frames, writes inputs and ends with success only on a connection
/// that the server greeted with a handshake.
pub proof fn law_client_waits_for_the_handshake(max_retries: u32, events: Seq<ClientEvent>)
    requires
        Client::runs(max_retries, events),
        is_connected_action(Client::after_all(max_retries, events).1),
    ensures
        exists|k: int| #[trigger] connected_since(events, k),
    decreases events.len(),
{
    if events.len() > 0 {
        let n = events.len() - 1;
        let before = events.drop_last();
        lemma_run_before(max_retries, events);
        let (client, action) = Client::after_all(max_retries, before);
        lemma_stays_connected(client, action, events.last());
        if events.last().is_handshake() {
            assert(connected_since(events, n as int));
        } else {
            law_client_waits_for_the_handshake(max_retries, before);
            let k = choose|k: int| #[trigger] connected_since(before, k);
            lemma_connected_extends(events, k);
        }
    }
}

/// A client that ended does nothing more.
pub proof fn law_client_end_is_final(max_retries: u32, events: Seq<ClientEvent>, i: int)
    requires
        Client::runs(max_retries, events),
        0 <= i <= events.len(),
        Client::after_all(max_retries, events.take(i)).1 is Finish || Client::after_all(
            max_retries,
            events.take(i),
        ).1 is GiveUp,
    ensures
        i == events.len(),
{
    if i < events.len() {
        assert(!events[i].answers(Client::after_all(max_retries, events.take(i)).1));
    }
}

/// The data of the frames that the server sent.
pub open spec fn frames_received(events: Seq<ClientEvent>) -> Seq<Vec<u8>>
    decreases events.len(),
{
    if events.len() == 0 {
        Seq::empty()
    } else {
        let before = frames_received(events.drop_last());
        match events.last() {
            ClientEvent::Received(Some(Message::VideoFrame { data, .. })) => before.push(data),
            _ => before,
        }
    }
}

/// The data of the frames that were handed on with success.
pub open spec fn frames_delivered(max_retries: u32, events: Seq<ClientEvent>) -> Seq<Vec<u8>>
    decreases events.len(),
{
    if events.len() == 0 {
        Seq::empty()
    } else {
        let before = frames_delivered(max_retries, events.drop_last());
        match (Client::after_all(max_retries, events.drop_last()).1, events.last()) {
            (
                ClientAction::DeliverFrame(data),
                ClientEvent::FrameDelivered { delivered: true },
            ) => before.push(data),
            _ => before,
        }
    }
}

/// The frames of the server are handed on as they came and in order; only the newest can be
/// missing, while it is being handed on or where nobody was there to take it.
pub proof fn law_frames_arrive_in_order(max_retries: u32, events: Seq<ClientEvent>)
    requires
        Client::runs(max_retries, events),
    ensures
        ({
            let sent = frames_received(events);
            let shown = frames_delivered(max_retries, events);
            &&& shown.len() <= sent.len() <= shown.len() + 1
            &&& forall|i: int| 0 <= i < shown.len() ==> #[trigger] shown[i] == sent[i]
            &&& sent.len() > shown.len() <==> events.len() > 0 && (Client::after_all(
                max_retries,
                events,
            ).1 is DeliverFrame || events.last() == (ClientEvent::FrameDelivered {
                delivered: false,
            }))
            &&& Client::after_all(max_retries, events).1 matches ClientAction::DeliverFrame(data)
                ==> sent.len() > 0 && data == sent.last()
        }),
    decreases events.len(),
{
    if events.len() > 0 {
        lemma_run_before(max_retries, events);
        law_frames_arrive_in_order(max_retries, events.drop_last());
        lemma_last_action(max_retries, events.drop_last());
    }
}

/// The inputs of the local user.
pub open spec fn inputs_entered(events: Seq<ClientEvent>) -> Seq<Message>
    decreases events.len(),
{
    if events.len() == 0 {
        Seq::empty()
    } else {
        let before = inputs_entered(events.drop_last());
        match events.last() {
            ClientEvent::Input(Some(msg)) => before.push(msg),
            _ => before,
        }
    }
}

/// The inputs that are done with, each with whether it was written to the server.
pub open spec fn inputs_settled(max_retries: u32, events: Seq<ClientEvent>) -> Seq<(Message, bool)>
    decreases events.len(),
{
    if events.len() == 0 {
        Seq::empty()
    } else {
        let before = inputs_settled(max_retries, events.drop_last());
        match (Client::after_all(max_retries, events.drop_last()).1, events.last()) {
            (
                ClientAction::WriteInput { msg, .. },
                ClientEvent::InputWritten { written, .. },
            ) => before.push((msg, written)),
            _ => before,
        }
    }
}

/// Those of the inputs that were written.
pub open spec fn written_of(settled: Seq<(Message, bool)>) -> Seq<Message>
    decreases settled.len(),
{
    if settled.len() == 0 {
        Seq::empty()
    } else if settled.last().1 {
        written_of(settled.drop_last()).push(settled.last().0)
    } else {
        written_of(settled.drop_last())
    }
}

/// How many of the inputs were not written.
pub open spec fn lost_of(settled: Seq<(Message, bool)>) -> nat
    decreases settled.len(),
{
    if settled.len() == 0 {
        0
    } else {
        lost_of(settled.drop_last()) + if settled.last().1 {
            0nat
        } else {
            1nat
        }
    }
}

/// The inputs that were written to the server with success, over all attempts.
pub open spec fn inputs_written(max_retries: u32, events: Seq<ClientEvent>) -> Seq<Message> {
    written_of(inputs_settled(max_retries, events))
}

/// The inputs of the local user go to the server as they are and in order, over all attempts:
/// each one is settled before the next is taken, none is written twice, and only those are
/// missing whose write failed. Each of these has ended an attempt, or was the farewell that
/// ended the client. Where no write failed, all inputs were written, but for the one that is
/// being written.
pub proof fn law_inputs_leave_in_order(max_retries: u32, events: Seq<ClientEvent>)
    requires
        Client::runs(max_retries, events),
    ensures
        ({
            let entered = inputs_entered(events);
            let settled = inputs_settled(max_retries, events);
            let action = Client::after_all(max_retries, events).1;
            let pending: nat = if action is WriteInput {
                1
            } else {
                0
            };
            let written = inputs_written(max_retries, events);
            &&& entered.len() == settled.len() + pending
            &&& forall|i: int| 0 <= i < settled.len() ==> (#[trigger] settled[i]).0 == entered[i]
            &&& action matches ClientAction::WriteInput { msg, last } ==> msg == entered.last()
                && last == (msg is Disconnect)
            &&& written.len() + lost_of(settled) == settled.len()
            &&& lost_of(settled) <= failures(events) + if action is Finish {
                1nat
            } else {
                0nat
            }
            &&& lost_of(settled) == 0 ==> written == entered.take(settled.len() as int)
        }),
    decreases events.len(),
{
    if events.len() > 0 {
        let before = events.drop_last();
        lemma_run_before(max_retries, events);
        law_inputs_leave_in_order(max_retries, before);
        lemma_last_action(max_retries, before);
        let settled = inputs_settled(max_retries, events);
        let was = inputs_settled(max_retries, before);
        if settled.len() > was.len() {
            assert(settled.drop_last() =~= was);
        }
        let entered = inputs_entered(events);
        assert(entered.take(was.len() as int) =~= inputs_entered(before).take(was.len() as int));
        if lost_of(settled) == 0 {
            assert(written_of(settled) =~= entered.take(settled.len() as int));
        }
    }
}

/// What the last event of a run says of the last action.
pub proof fn lemma_last_action(max_retries: u32, events: Seq<ClientEvent>)
    ensures
        ({
            let action = Client::after_all(max_retries, events).1;
            &&& action is DeliverFrame ==> events.len() > 0 && events.last() is Received
            &&& action is WriteInput ==> events.len() > 0 && events.last() is Input
            &&& events.len() > 0 && events.last() == (ClientEvent::FrameDelivered {
                delivered: false,
            }) ==> action is Finish
        }),
{
}

/// A farewell ends the client with success: the server's at once, the local user's when it is
/// written.
pub proof fn law_disconnect_ends_the_client(
    max_retries: u32,
    events: Seq<ClientEvent>,
    written: bool,
)
    requires
        Client::runs(max_retries, events),
        events.len() > 0,
    ensures
        events.last() == ClientEvent::Received(Some(Message::Disconnect)) ==> Client::after_all(
            max_retries,
            events,
        ).1 is Finish,
        events.last() == ClientEvent::Input(Some(Message::Disconnect)) ==> {
            let reply = ClientEvent::InputWritten { written, last: true };
            &&& reply.answers(Client::after_all(max_retries, events).1)
            &&& Client::after_all(max_retries, events.push(reply)).1 is Finish
        },
{
    let reply = ClientEvent::InputWritten { written, last: true };
    assert(events.push(reply).drop_last() =~= events);
}

/// A client learns the display of its server: where the first thing that the server writes is
/// its handshake, the client reads it and announces the server's resolution.
pub proof fn law_client_learns_the_display(
    server: Server,
    client: Client,
    tail: Seq<u8>,
    outcome: Result<MessageView, ProtocolError>,
    used: nat,
    first: Message,
)
    requires
        protocol::read_outcome(server.handshake()@.framed() + tail, outcome, used),
        outcome is Ok ==> outcome->Ok_0 == first@,
        !client.announced,
    ensures
        outcome is Ok,
        client.after(ClientEvent::Greeted(Some(first))) == (
            Client { announced: true, ..client },
            ClientAction::Announce { width: server.width, height: server.height },
        ),
{
    protocol::lemma_payload_len(server.handshake()@);
    protocol::law_read_after_write(server.handshake()@, tail, outcome, used);
}

/// A frame loses nothing on its way from the server's encoder to the client's viewer: what the
/// client reads of a stream that starts with the frame's message is handed on with the same
/// bytes. This holds of every frame that the reader's limit admits.
pub proof fn law_frames_survive_the_wire(
    data: Vec<u8>,
    client: Client,
    tail: Seq<u8>,
    outcome: Result<MessageView, ProtocolError>,
    used: nat,
    read: Message,
)
    requires
        network::frame_message(data)@.payload().len() <= protocol::MAX_PAYLOAD,
        protocol::read_outcome(network::frame_message(data)@.framed() + tail, outcome, used),
        outcome is Ok ==> outcome->Ok_0 == read@,
    ensures
        outcome is Ok,
        used == network::frame_message(data)@.framed().len(),
        client.after(ClientEvent::Received(Some(read))).0 == client,
        client.after(ClientEvent::Received(Some(read))).1 matches ClientAction::DeliverFrame(shown)
            && shown@ == data@,
{
    protocol::lemma_payload_len(network::frame_message(data)@);
    protocol::law_read_after_write(network::frame_message(data)@, tail, outcome, used);
}

// ---------------------------------------------------------------------------
// What each event leads to
// ---------------------------------------------------------------------------

/// Whether a client that has failed `count` times in all, the last time with `error`, goes on
/// with `action`: it tries again while it has retries left, and gives up behind that.
pub open spec fn goes_on_behind(
    action: ClientAction,
    max_retries: u32,
    count: nat,
    error: ClientError,
) -> bool {
    if count <= max_retries {
        action matches ClientAction::Retry { attempt, error: told } && attempt == count && told
            == error
    } else {
        action matches ClientAction::GiveUp { error: told } && told == error
    }
}

/// A connected client goes on: behind a frame that was handed on, an input that was written and
/// is no farewell, the announcement and a message that it has no use for, it waits for the next
/// message or input, whatever the attempt, and stands where it stood.
pub proof fn law_connected_client_goes_on(client: Client, ignored: Message)
    requires
        !(ignored is VideoFrame),
        !(ignored is Disconnect),
    ensures
        client.after(ClientEvent::FrameDelivered { delivered: true }) == (
            client,
            ClientAction::Relay,
        ),
        client.after(ClientEvent::InputWritten { written: true, last: false }) == (
            client,
            ClientAction::Relay,
        ),
        client.after(ClientEvent::Announced) == (client, ClientAction::Relay),
        client.after(ClientEvent::Received(Some(ignored))) == (client, ClientAction::Relay),
{
}

/// Over any run a client ends with success exactly where the server said farewell, the local
/// user's farewell was settled, there are no more inputs, or nobody took a frame. It waits for
/// messages and inputs exactly behind a frame that was handed on, an input other than the
/// farewell that was written, the announcement, a later handshake, or a message that it has no
/// use for.
pub proof fn law_client_ends_where_a_side_leaves(max_retries: u32, events: Seq<ClientEvent>)
    requires
        Client::runs(max_retries, events),
        events.len() > 0,
    ensures
        ({
            let n = events.len() as int;
            let action = Client::after_all(max_retries, events).1;
            let earlier = Client::after_all(max_retries, events.drop_last()).0.announced;
            &&& action is Finish <==> match events.last() {
                ClientEvent::Received(Some(Message::Disconnect)) => true,
                ClientEvent::Input(None) => true,
                ClientEvent::FrameDelivered { delivered: false } => true,
                ClientEvent::InputWritten { .. } => n >= 2 && events[n - 2] == ClientEvent::Input(
                    Some(Message::Disconnect),
                ),
                _ => false,
            }
            &&& action is Relay <==> match events.last() {
                ClientEvent::Announced => true,
                ClientEvent::FrameDelivered { delivered: true } => true,
                ClientEvent::InputWritten { written: true, .. } => n >= 2 && events[n - 2]
                    != ClientEvent::Input(Some(Message::Disconnect)),
                ClientEvent::Greeted(Some(msg)) => msg is Handshake && earlier,
                ClientEvent::Received(Some(msg)) => !(msg is VideoFrame) && !(msg is Disconnect),
                _ => false,
            }
        }),
{
    let n = events.len() as int;
    let before = events.drop_last();
    lemma_run_before(max_retries, events);
    if events.last() is InputWritten {
        assert(Client::after_all(max_retries, before).1 is WriteInput);
        assert(before.len() > 0);
        lemma_write_follows_input(max_retries, before);
        assert(before.last() == events[n - 2]);
    }
}

/// An input is written exactly behind its arrival, as it is, and as the last one exactly where
/// it is the farewell.
proof fn lemma_write_follows_input(max_retries: u32, events: Seq<ClientEvent>)
    ensures
        Client::after_all(max_retries, events).1 matches ClientAction::WriteInput { msg, last }
            ==> events.len() > 0 && events.last() == ClientEvent::Input(Some(msg)) && last == (
        msg is Disconnect),
{
}

/// What a client does with what comes: an input is written as it is, as the last one exactly
/// where it is a farewell; the data of a frame is handed on as it is; the first handshake is
/// announced with its width and its height; an open connection is read from, and behind the wait
/// a new one is opened.
pub proof fn law_client_passes_on_what_comes(client: Client, event: ClientEvent)
    ensures
        ({
            let action = client.after(event).1;
            &&& match event {
                ClientEvent::Input(Some(msg)) => action matches ClientAction::WriteInput {
                    msg: sent,
                    last,
                } && sent == msg && last == (msg == Message::Disconnect),
                _ => !(action is WriteInput),
            }
            &&& match event {
                ClientEvent::Received(Some(Message::VideoFrame { data, .. })) => action
                    == ClientAction::DeliverFrame(data),
                _ => !(action is DeliverFrame),
            }
            &&& match event {
                ClientEvent::Greeted(Some(Message::Handshake { width, height, .. })) => {
                    &&& client.announced ==> action is Relay
                    &&& !client.announced ==> action == (ClientAction::Announce { width, height })
                },
                _ => !(action is Announce),
            }
            &&& action is ReadHandshake <==> event == (ClientEvent::Opened { opened: true })
            &&& action is Open <==> event is Waited
        }),
{
}

/// A client tries again, or gives up, exactly behind a connection that could not be opened, a
/// first message that could not be read or is no handshake, a later message that could not be
/// read, and an input other than the farewell that could not be written, and reports each as
/// what it is. The number that it reports is the count of its failures.
pub proof fn law_client_reports_each_failure(max_retries: u32, events: Seq<ClientEvent>)
    requires
        Client::runs(max_retries, events),
        max_retries < u32::MAX || failures(events) < u32::MAX,
        events.len() > 0,
    ensures
        ({
            let action = Client::after_all(max_retries, events).1;
            let count = failures(events);
            match events.last() {
                ClientEvent::Opened { opened: false } => goes_on_behind(
                    action,
                    max_retries,
                    count,
                    ClientError::Connect,
                ),
                ClientEvent::Greeted(None) => goes_on_behind(
                    action,
                    max_retries,
                    count,
                    ClientError::ReadHandshake,
                ),
                ClientEvent::Greeted(Some(msg)) => !(msg is Handshake) ==> goes_on_behind(
                    action,
                    max_retries,
                    count,
                    ClientError::UnexpectedMessage(msg),
                ),
                ClientEvent::Received(None) => goes_on_behind(
                    action,
                    max_retries,
                    count,
                    ClientError::ConnectionLost,
                ),
                ClientEvent::InputWritten { written: false, last: false } => goes_on_behind(
                    action,
                    max_retries,
                    count,
                    ClientError::ConnectionLost,
                ),
                _ => !(action is Retry) && !(action is GiveUp),
            }
        }),
{
    lemma_run_before(max_retries, events);
    law_retries_are_bounded(max_retries, events.drop_last());
    law_retries_are_bounded(max_retries, events);
}

/// How many connections a client tried to open.
pub open spec fn attempts(events: Seq<ClientEvent>) -> nat
    decreases events.len(),
{
    if events.len() == 0 {
        0
    } else {
        attempts(events.drop_last()) + if events.last() is Opened {
            1nat
        } else {
            0nat
        }
    }
}

/// A client tries to open a connection once and up to `max_retries` times more, and where it
/// gives up it has tried that often.
pub proof fn law_attempts_are_bounded(max_retries: u32, events: Seq<ClientEvent>)
    requires
        Client::runs(max_retries, events),
        max_retries < u32::MAX || failures(events) < u32::MAX,
    ensures
        attempts(events) <= max_retries + 1,
        Client::after_all(max_retries, events).1 is GiveUp ==> attempts(events) == max_retries + 1,
{
    lemma_attempts(max_retries, events);
    law_retries_are_bounded(max_retries, events);
}

/// Each attempt but the current one has failed.
proof fn lemma_attempts(max_retries: u32, events: Seq<ClientEvent>)
    requires
        Client::runs(max_retries, events),
    ensures
        ({
            let action = Client::after_all(max_retries, events).1;
            attempts(events) == failures(events) + if action is Open || action is Retry
                || action is GiveUp {
                0nat
            } else {
                1nat
            }
        }),
    decreases events.len(),
{
    if events.len() > 0 {
        lemma_run_before(max_retries, events);
        lemma_attempts(max_retries, events.drop_last());
    }
}

/// A failed attempt is reported by what failed, and an unexpected message with its words.
pub proof fn law_failures_are_told(msg: Message, place: Seq<char>)
    ensures
        ClientError::Connect.message(place) == "TCP connect"@,
        ClientError::ReadHandshake.message(place) == "read handshake"@,
        ClientError::ConnectionLost.message(place) == "connection lost"@,
        ClientError::UnexpectedMessage(msg).message(place) == "expected Handshake, got "@
            + msg@.words(place),
{
}

/// The address of a server is its host and its port in decimal, with a colon between them, and a
/// client that gives up names the address and its retries.
pub proof fn law_addresses_are_told(
    host: &str,
    port: u16,
    addr: String,
    retries: u32,
    report: String,
)
    requires
        call_ensures(server_address, (host, port), addr),
        call_ensures(gave_up, (host, retries), report),
    ensures
        addr@ == host@ + (":"@ + text::decimal(port as nat)),
        report@ == "failed to connect to "@ + (host@ + (" after "@ + (text::decimal(retries as nat)
            + " attempts"@))),
{
    assert(addr@ =~= host@ + (":"@ + text::decimal(port as nat)));
    assert(report@ =~= "failed to connect to "@ + (host@ + (" after "@ + (text::decimal(
        retries as nat,
    ) + " attempts"@))));
}

/// A client can go on behind every event while its attempts can be counted, and behind every
/// event that ends no attempt.
pub proof fn law_clients_can_go_on(client: Client, event: ClientEvent, able: bool)
    requires
        call_ensures(Client::can_take, (&client, &event), able),
    ensures
        client.attempt < u32::MAX || client.max_retries < u32::MAX ==> able,
        event is Announced || event is Input || event is FrameDelivered || event is Waited ==> able,
{
}

} // verus!
