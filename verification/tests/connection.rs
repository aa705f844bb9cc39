use remotedesk::client::{
    gave_up, server_address, Client, ClientAction, ClientError, ClientEvent, RETRY_DELAY_SECS,
};
use remotedesk::network::{
    inbound_next, outbound_next, InboundAction, InboundEvent, OutboundAction, OutboundEvent,
    Server, ServerAction, ServerEvent, FRAME_CAPACITY, PROTOCOL_VERSION, SERVER_PORT,
};
use remotedesk::link::{read_event, Inbox};
use remotedesk::protocol::{read_message, write_message, Coord, Message, ProtocolError};

/// What a client reads of the first message that a server greets it with.
fn greeting(action: ServerAction) -> Message {
    match action {
        ServerAction::Greet(msg) => {
            let mut stream: Vec<u8> = Vec::new();
            write_message(&mut stream, &msg);
            let mut pos: usize = 0;
            read_message(&stream, &mut pos).unwrap()
        }
        _ => panic!("the server does not greet"),
    }
}

fn handshake() -> Message {
    Message::Handshake { version: 1, width: 1920, height: 1080, fps: 60 }
}

#[test]
fn test_server_accepts_connection() {
    let server = Server { width: 1920, height: 1080, fps: 60 };
    let msg = greeting(server.next(ServerEvent::Accepted));
    assert_eq!(
        msg,
        Message::Handshake { version: 1, width: 1920, height: 1080, fps: 60 }
    );
    assert!(matches!(
        server.next(ServerEvent::Greeted { written: true }),
        ServerAction::Subscribe
    ));
    assert!(matches!(server.next(ServerEvent::Subscribed), ServerAction::Relay));
}

#[test]
fn test_server_rejects_second_connection() {
    // The server handles one connection at a time. A second client waits until the first one
    // disconnects, and is then accepted and greeted like the first.
    let server = Server { width: 1920, height: 1080, fps: 60 };

    let msg1 = greeting(server.next(ServerEvent::Accepted));
    assert!(matches!(msg1, Message::Handshake { .. }));
    assert!(matches!(
        server.next(ServerEvent::Greeted { written: true }),
        ServerAction::Subscribe
    ));
    assert!(matches!(server.next(ServerEvent::Subscribed), ServerAction::Relay));

    // The first client leaves.
    let action = inbound_next(InboundEvent::Received(Message::Disconnect));
    assert!(matches!(
        action,
        InboundAction::Forward { msg: Message::Disconnect, last: true }
    ));
    let action = inbound_next(InboundEvent::Forwarded { delivered: true, last: true });
    assert!(matches!(action, InboundAction::Stop));
    assert!(matches!(server.next(ServerEvent::RelayEnded), ServerAction::Accept));

    let msg2 = greeting(server.next(ServerEvent::Accepted));
    assert!(matches!(msg2, Message::Handshake { .. }));
}

#[test]
fn test_client_reconnect() {
    // max 2 retries = 3 total attempts
    let mut client = Client::new(2);

    // The client connects, gets the handshake, then the server drops the connection.
    assert!(matches!(
        client.next(ClientEvent::Opened { opened: true }),
        ClientAction::ReadHandshake
    ));
    assert!(matches!(
        client.next(ClientEvent::Greeted(Some(handshake()))),
        ClientAction::Announce { width: 1920, height: 1080 }
    ));
    assert!(matches!(client.next(ClientEvent::Announced), ClientAction::Relay));
    assert!(matches!(
        client.next(ClientEvent::Received(None)),
        ClientAction::Retry { attempt: 1, error: ClientError::ConnectionLost }
    ));

    // The client retries but the server is gone: it fails after 3 attempts.
    assert!(matches!(client.next(ClientEvent::Waited), ClientAction::Open));
    assert!(matches!(
        client.next(ClientEvent::Opened { opened: false }),
        ClientAction::Retry { attempt: 2, error: ClientError::Connect }
    ));
    assert!(matches!(client.next(ClientEvent::Waited), ClientAction::Open));
    let result = client.next(ClientEvent::Opened { opened: false });
    assert!(
        matches!(result, ClientAction::GiveUp { error: ClientError::Connect }),
        "Expected error after server gone"
    );
}

#[test]
fn test_client_gives_up_after_max_retries() {
    // max_retries=2 means 3 total attempts
    let mut client = Client::new(2);
    let mut attempts: u32 = 0;
    let error = loop {
        attempts += 1;
        match client.next(ClientEvent::Opened { opened: false }) {
            ClientAction::Retry { attempt, .. } => {
                assert_eq!(attempt, attempts);
                assert!(matches!(client.next(ClientEvent::Waited), ClientAction::Open));
            }
            ClientAction::GiveUp { error } => break error,
            _ => panic!("neither another attempt nor the end"),
        }
    };
    assert!(
        matches!(error, ClientError::Connect),
        "Expected error after 3 failed attempts"
    );
    assert_eq!(attempts, 3);
}

#[test]
fn a_client_without_retries_makes_one_attempt() {
    let mut client = Client::new(0);
    assert!(matches!(
        client.next(ClientEvent::Opened { opened: false }),
        ClientAction::GiveUp { error: ClientError::Connect }
    ));
}

#[test]
fn the_first_message_has_to_be_a_handshake() {
    let mut client = Client::new(1);
    client.next(ClientEvent::Opened { opened: true });
    match client.next(ClientEvent::Greeted(Some(Message::Disconnect))) {
        ClientAction::Retry { attempt: 1, error: ClientError::UnexpectedMessage(msg) } => {
            assert_eq!(msg, Message::Disconnect)
        }
        _ => panic!("the message was taken"),
    }
    client.next(ClientEvent::Waited);
    client.next(ClientEvent::Opened { opened: true });
    assert!(matches!(
        client.next(ClientEvent::Greeted(None)),
        ClientAction::GiveUp { error: ClientError::ReadHandshake }
    ));
}

#[test]
fn the_resolution_is_announced_with_the_first_handshake_only() {
    let mut client = Client::new(5);
    client.next(ClientEvent::Opened { opened: false });
    client.next(ClientEvent::Waited);
    client.next(ClientEvent::Opened { opened: true });
    assert!(matches!(
        client.next(ClientEvent::Greeted(Some(handshake()))),
        ClientAction::Announce { width: 1920, height: 1080 }
    ));
    client.next(ClientEvent::Announced);
    client.next(ClientEvent::Received(None));
    client.next(ClientEvent::Waited);
    client.next(ClientEvent::Opened { opened: true });
    assert!(matches!(
        client.next(ClientEvent::Greeted(Some(handshake()))),
        ClientAction::Relay
    ));
}

#[test]
fn a_connected_client_relays() {
    let mut client = Client::new(0);
    match client.next(ClientEvent::Received(Some(Message::VideoFrame {
        timestamp_ms: 3,
        data: vec![1, 2],
    }))) {
        ClientAction::DeliverFrame(data) => assert_eq!(data, vec![1, 2]),
        _ => panic!("the frame is not handed on"),
    }
    assert!(matches!(
        client.next(ClientEvent::FrameDelivered { delivered: true }),
        ClientAction::Relay
    ));
    assert!(matches!(
        client.next(ClientEvent::FrameDelivered { delivered: false }),
        ClientAction::Finish
    ));
    // Other messages of the server are ignored.
    assert!(matches!(
        client.next(ClientEvent::Received(Some(handshake()))),
        ClientAction::Relay
    ));
    assert!(matches!(
        client.next(ClientEvent::Input(Some(Message::KeyEvent { keycode: 1, pressed: true }))),
        ClientAction::WriteInput { msg: Message::KeyEvent { keycode: 1, pressed: true }, last: false }
    ));
    assert!(matches!(
        client.next(ClientEvent::InputWritten { written: true, last: false }),
        ClientAction::Relay
    ));
}

#[test]
fn a_failed_write_is_a_lost_connection() {
    let mut client = Client::new(1);
    client.next(ClientEvent::Opened { opened: true });
    client.next(ClientEvent::Greeted(Some(handshake())));
    client.next(ClientEvent::Announced);
    client.next(ClientEvent::Input(Some(Message::KeyEvent { keycode: 1, pressed: true })));
    let failed = ClientEvent::InputWritten { written: false, last: false };
    assert!(failed.is_failure());
    assert!(matches!(
        client.next(failed),
        ClientAction::Retry { attempt: 1, error: ClientError::ConnectionLost }
    ));
    // The next attempt, and the next input.
    client.next(ClientEvent::Waited);
    client.next(ClientEvent::Opened { opened: true });
    assert!(matches!(
        client.next(ClientEvent::Greeted(Some(handshake()))),
        ClientAction::Relay
    ));
    assert!(matches!(
        client.next(ClientEvent::Input(Some(Message::KeyEvent { keycode: 2, pressed: true }))),
        ClientAction::WriteInput { msg: Message::KeyEvent { keycode: 2, pressed: true }, last: false }
    ));
    assert!(matches!(
        client.next(ClientEvent::InputWritten { written: false, last: false }),
        ClientAction::GiveUp { error: ClientError::ConnectionLost }
    ));
}

#[test]
fn a_farewell_ends_a_client() {
    let mut client = Client::new(3);
    assert!(matches!(
        client.next(ClientEvent::Received(Some(Message::Disconnect))),
        ClientAction::Finish
    ));
    assert!(matches!(
        client.next(ClientEvent::Input(Some(Message::Disconnect))),
        ClientAction::WriteInput { msg: Message::Disconnect, last: true }
    ));
    assert!(matches!(
        client.next(ClientEvent::InputWritten { written: true, last: true }),
        ClientAction::Finish
    ));
    // A farewell that cannot be written ends the client as well.
    let failed = ClientEvent::InputWritten { written: false, last: true };
    assert!(!failed.is_failure());
    assert!(matches!(client.next(failed), ClientAction::Finish));
    assert!(matches!(client.next(ClientEvent::Input(None)), ClientAction::Finish));
}

#[test]
fn a_server_outlives_what_goes_wrong() {
    let server = Server { width: 1, height: 2, fps: 3 };
    assert!(matches!(server.next(ServerEvent::AcceptFailed), ServerAction::Accept));
    assert!(matches!(
        server.next(ServerEvent::Greeted { written: false }),
        ServerAction::Accept
    ));
    assert!(matches!(server.next(ServerEvent::RelayEnded), ServerAction::Accept));
}

#[test]
fn frames_are_relayed_as_messages() {
    match outbound_next(OutboundEvent::Frame(vec![4, 5])) {
        OutboundAction::Write(msg) => {
            assert_eq!(msg, Message::VideoFrame { timestamp_ms: 0, data: vec![4, 5] })
        }
        _ => panic!("the frame is not written"),
    }
    assert!(matches!(
        outbound_next(OutboundEvent::Written { written: true }),
        OutboundAction::Receive
    ));
    assert!(matches!(
        outbound_next(OutboundEvent::Written { written: false }),
        OutboundAction::Stop
    ));
    assert!(matches!(outbound_next(OutboundEvent::Lagged(7)), OutboundAction::Receive));
    assert!(matches!(outbound_next(OutboundEvent::Closed), OutboundAction::Stop));
}

#[test]
fn inputs_are_handed_on() {
    assert!(matches!(
        inbound_next(InboundEvent::Received(Message::MouseClick { button: 1, pressed: true })),
        InboundAction::Forward {
            msg: Message::MouseClick { button: 1, pressed: true },
            last: false
        }
    ));
    assert!(matches!(
        inbound_next(InboundEvent::Forwarded { delivered: true, last: false }),
        InboundAction::Read
    ));
    assert!(matches!(
        inbound_next(InboundEvent::Forwarded { delivered: false, last: false }),
        InboundAction::Stop
    ));
    assert!(matches!(inbound_next(InboundEvent::ReadFailed), InboundAction::Stop));
}

#[test]
fn a_client_learns_the_display_of_its_server() {
    let server = Server { width: 2560, height: 1440, fps: 120 };
    let first = greeting(server.next(ServerEvent::Accepted));
    let mut client = Client::new(0);
    assert!(matches!(
        client.next(ClientEvent::Greeted(Some(first))),
        ClientAction::Announce { width: 2560, height: 1440 }
    ));
}

#[test]
fn connections_are_described() {
    assert_eq!(server_address("192.168.1.7", SERVER_PORT), "192.168.1.7:7070");
    assert_eq!(server_address("h", 0), "h:0");
    assert_eq!(
        gave_up("10.0.0.1:7070", 2),
        "failed to connect to 10.0.0.1:7070 after 2 attempts"
    );
    assert_eq!(ClientError::Connect.describe(""), "TCP connect");
    assert_eq!(ClientError::ReadHandshake.describe(""), "read handshake");
    assert_eq!(ClientError::ConnectionLost.describe(""), "connection lost");
    assert_eq!(RETRY_DELAY_SECS, 1);
    assert_eq!(PROTOCOL_VERSION, 1);
}

#[test]
fn frames_reach_the_client() {
    let msg = match outbound_next(OutboundEvent::Frame(vec![1, 2, 3])) {
        OutboundAction::Write(msg) => msg,
        _ => panic!("the frame is not written"),
    };
    let mut stream: Vec<u8> = Vec::new();
    write_message(&mut stream, &msg);
    stream.push(42);
    let mut pos: usize = 0;
    let read = read_message(&stream, &mut pos).unwrap();
    assert_eq!(pos, stream.len() - 1);
    match Client::new(0).next(ClientEvent::Received(Some(read))) {
        ClientAction::DeliverFrame(data) => assert_eq!(data, vec![1, 2, 3]),
        _ => panic!("the frame is not handed on"),
    }
}

#[test]
fn unexpected_messages_are_described() {
    for (msg, text) in [
        (Message::Disconnect, "Disconnect"),
        (
            Message::KeyEvent { keycode: 56, pressed: true },
            "KeyEvent { keycode: 56, pressed: true }",
        ),
        (
            Message::MouseClick { button: 1, pressed: false },
            "MouseClick { button: 1, pressed: false }",
        ),
        (
            Message::VideoFrame { timestamp_ms: 12, data: vec![1, 20, 255] },
            "VideoFrame { timestamp_ms: 12, data: [1, 20, 255] }",
        ),
        (
            Message::VideoFrame { timestamp_ms: 0, data: vec![] },
            "VideoFrame { timestamp_ms: 0, data: [] }",
        ),
        (
            Message::Handshake { version: 1, width: 1920, height: 1080, fps: 60 },
            "Handshake { version: 1, width: 1920, height: 1080, fps: 60 }",
        ),
    ] {
        // These are the words of `Debug` too.
        assert_eq!(format!("{msg:?}"), text);
        assert_eq!(
            ClientError::UnexpectedMessage(msg).describe("nowhere"),
            format!("expected Handshake, got {text}")
        );
    }
    let still = Coord { bits: 0 };
    assert_eq!(
        ClientError::UnexpectedMessage(Message::MouseMove { x: still, y: still })
            .describe("x: 0.0, y: 0.0"),
        "expected Handshake, got MouseMove { x: 0.0, y: 0.0 }"
    );
}

/// Some messages of a server, and their bytes.
fn served() -> (Vec<Message>, Vec<u8>) {
    let messages = vec![
        handshake(),
        Message::VideoFrame { timestamp_ms: 0, data: vec![1, 2, 3] },
        Message::VideoFrame { timestamp_ms: 0, data: vec![] },
        Message::VideoFrame { timestamp_ms: 0, data: vec![9; 40] },
    ];
    let mut stream: Vec<u8> = Vec::new();
    for msg in &messages {
        write_message(&mut stream, msg);
    }
    (messages, stream)
}

#[test]
fn pieces_of_any_length_give_the_same_messages() {
    let (messages, stream) = served();
    for size in 1..stream.len() + 1 {
        let mut inbox = Inbox::new();
        let mut got: Vec<Message> = Vec::new();
        for piece in stream.chunks(size) {
            inbox.feed(piece);
            while let Some(result) = inbox.next() {
                got.push(result.unwrap());
            }
        }
        assert_eq!(got, messages);
        assert_eq!(inbox.end(), ProtocolError::ShortLength);
    }
}

#[test]
fn an_inbox_refuses_what_is_no_message() {
    let mut inbox = Inbox::new();
    inbox.feed(&[4, 0, 0, 0, 9]);
    assert!(inbox.next().is_none());
    assert_eq!(inbox.end(), ProtocolError::ShortPayload);
    inbox.feed(&[0, 0, 0, 4, 0, 0, 0, 5, 0, 0, 0]);
    assert_eq!(inbox.next(), Some(Err(ProtocolError::Malformed)));
    assert_eq!(inbox.next(), Some(Ok(Message::Disconnect)));
    assert_eq!(inbox.next(), None);
    inbox.feed(&[255, 255, 255, 255]);
    assert_eq!(
        inbox.next(),
        Some(Err(ProtocolError::TooLarge { len: u32::MAX as usize }))
    );
}

#[test]
fn inputs_between_the_pieces_disturb_nothing() {
    let (_, stream) = served();
    for size in 1..stream.len() + 1 {
        let mut client = Client::new(0);
        let mut inbox = Inbox::new();
        let mut pieces = stream.chunks(size);
        let mut key: u32 = 0;
        let mut frames: Vec<Vec<u8>> = Vec::new();
        let mut written: Vec<Message> = Vec::new();
        let mut action = ClientAction::Open;
        loop {
            let first = matches!(action, ClientAction::ReadHandshake);
            let event = match action {
                ClientAction::Open => ClientEvent::Opened { opened: true },
                ClientAction::ReadHandshake | ClientAction::Relay => {
                    match read_event(&mut inbox, first) {
                        Some((event, error)) => {
                            assert_eq!(error, None);
                            event
                        }
                        None => match pieces.next() {
                            Some(piece) => {
                                inbox.feed(piece);
                                if first {
                                    action = ClientAction::ReadHandshake;
                                    continue;
                                }
                                key += 1;
                                ClientEvent::Input(Some(Message::KeyEvent {
                                    keycode: key,
                                    pressed: true,
                                }))
                            }
                            None => break,
                        },
                    }
                }
                ClientAction::Announce { .. } => ClientEvent::Announced,
                ClientAction::DeliverFrame(data) => {
                    frames.push(data);
                    ClientEvent::FrameDelivered { delivered: true }
                }
                ClientAction::WriteInput { msg, last } => {
                    written.push(msg);
                    ClientEvent::InputWritten { written: true, last }
                }
                _ => panic!("the connection ended"),
            };
            action = client.next(event);
        }
        assert_eq!(frames, vec![vec![1, 2, 3], vec![], vec![9; 40]]);
        assert_eq!(written.len(), key as usize);
        for (i, msg) in written.iter().enumerate() {
            assert_eq!(msg, &Message::KeyEvent { keycode: i as u32 + 1, pressed: true });
        }
    }
}

#[test]
fn a_broken_message_is_a_failed_read() {
    for first in [true, false] {
        let mut inbox = Inbox::new();
        assert!(read_event(&mut inbox, first).is_none());
        inbox.feed(&[4, 0, 0, 0, 9, 0, 0, 0]);
        match read_event(&mut inbox, first) {
            Some((event, error)) => {
                assert!(event.is_failure());
                assert_eq!(matches!(event, ClientEvent::Greeted(None)), first);
                assert_eq!(error, Some(ProtocolError::Malformed));
            }
            None => panic!("the message is there"),
        }
    }
}

/// What a server sends to one client: the frames of its subscription.
fn relayed(subscription: &mut Vec<Vec<u8>>) -> Vec<Message> {
    let mut sent: Vec<Message> = Vec::new();
    while !subscription.is_empty() {
        match outbound_next(OutboundEvent::Frame(subscription.remove(0))) {
            OutboundAction::Write(msg) => sent.push(msg),
            _ => panic!("the frame is not written"),
        }
        assert!(matches!(
            outbound_next(OutboundEvent::Written { written: true }),
            OutboundAction::Receive
        ));
    }
    sent
}

#[test]
fn stale_frames_are_not_sent() {
    // The frames that are made while a client is greeted go to nobody.
    let server = Server { width: 1, height: 1, fps: 1 };
    let mut subscription: Option<Vec<Vec<u8>>> = None;
    let mut made: u8 = 0;
    let mut sent: Vec<Vec<Message>> = Vec::new();
    let mut action = ServerAction::Accept;
    for _ in 0..8 {
        made += 1;
        if let Some(frames) = subscription.as_mut() {
            frames.push(vec![made]);
        }
        action = server.next(match action {
            ServerAction::Accept => ServerEvent::Accepted,
            ServerAction::Greet(_) => ServerEvent::Greeted { written: true },
            ServerAction::Subscribe => {
                subscription = Some(Vec::new());
                ServerEvent::Subscribed
            }
            ServerAction::Relay => {
                sent.push(relayed(&mut subscription.take().unwrap()));
                ServerEvent::RelayEnded
            }
        });
    }
    assert_eq!(
        sent,
        vec![
            vec![Message::VideoFrame { timestamp_ms: 0, data: vec![4] }],
            vec![Message::VideoFrame { timestamp_ms: 0, data: vec![8] }],
        ]
    );
    assert_eq!(FRAME_CAPACITY, 16);
}

#[test]
fn attempts_are_counted_as_far_as_numbers_go() {
    let lost = ClientEvent::Received(None);
    let client = Client::new(u32::MAX);
    assert!(client.can_take(&lost));
    let last = Client { attempt: u32::MAX, ..client };
    assert!(!last.can_take(&lost));
    assert!(last.can_take(&ClientEvent::Waited));
    assert!(Client { max_retries: 7, ..last }.can_take(&lost));
}
