use remotedesk::input::{
    clear_input_channel, deliver, inject_mouse_click, injection, keyboard_hook, mouse_hook,
    set_input_channel, start_input_capture, ButtonEvent, CaptureAction, Hook, Injection,
    InputCapture, MouseCapture, WM_KEYDOWN, WM_LBUTTONDOWN, WM_LBUTTONUP, WM_MBUTTONDOWN, WM_MBUTTONUP,
    WM_MOUSEMOVE, WM_RBUTTONDOWN, WM_RBUTTONUP, WM_SYSKEYDOWN,
};
use remotedesk::protocol::{read_message, write_message, Coord, Message};

/// What the other side reads of a message.
fn over_the_wire(msg: &Message) -> Message {
    let mut stream: Vec<u8> = Vec::new();
    write_message(&mut stream, msg);
    let mut pos: usize = 0;
    read_message(&stream, &mut pos).unwrap()
}

#[test]
fn test_input_message_encoding() {
    // Verify normalized coordinates map correctly to a known resolution.
    // Mouse coordinates are 0.0–1.0 normalized; server maps them to real pixels.
    let msg_x: f32 = 0.5;
    let msg_y: f32 = 0.75;
    let screen_w = 1920.0;
    let screen_h = 1080.0;

    let sent = Message::MouseMove {
        x: Coord { bits: msg_x.to_bits() },
        y: Coord { bits: msg_y.to_bits() },
    };
    let (msg_x, msg_y) = match injection(&over_the_wire(&sent)) {
        Injection::Move { x, y } => (f32::from_bits(x.bits), f32::from_bits(y.bits)),
        _ => panic!("the pointer does not move"),
    };

    let pixel_x = (msg_x * screen_w) as u32;
    let pixel_y = (msg_y * screen_h) as u32;

    assert_eq!(pixel_x, 960);
    assert_eq!(pixel_y, 810);
}

#[test]
fn the_mouse_is_captured() {
    for (event, button, pressed) in [
        (WM_LBUTTONDOWN, 0, true),
        (WM_LBUTTONUP, 0, false),
        (WM_RBUTTONDOWN, 1, true),
        (WM_RBUTTONUP, 1, false),
        (WM_MBUTTONDOWN, 2, true),
        (WM_MBUTTONUP, 2, false),
    ] {
        match mouse_hook(0, event as usize) {
            MouseCapture::Send(msg) => {
                assert_eq!(msg, Message::MouseClick { button, pressed })
            }
            _ => panic!("the click is lost"),
        }
        assert!(matches!(mouse_hook(-1, event as usize), MouseCapture::Nothing));
    }
    assert!(matches!(mouse_hook(5, WM_MOUSEMOVE as usize), MouseCapture::Position));
    // A wheel event.
    assert!(matches!(mouse_hook(0, 0x020A), MouseCapture::Nothing));
}

#[test]
fn the_keyboard_is_captured() {
    for (event, pressed) in [
        (WM_KEYDOWN, true),
        (WM_SYSKEYDOWN, true),
        (0x0101, false),
        (0x0105, false),
    ] {
        assert_eq!(
            keyboard_hook(0, event as usize, 65),
            Some(Message::KeyEvent { keycode: 65, pressed })
        );
        assert_eq!(keyboard_hook(-1, event as usize, 65), None);
    }
}

#[test]
fn the_channel_is_set_and_removed() {
    let mut channel: Option<u8> = None;
    set_input_channel(&mut channel, 7);
    assert_eq!(channel, Some(7));
    set_input_channel(&mut channel, 8);
    assert_eq!(channel, Some(8));
    clear_input_channel(&mut channel);
    assert_eq!(channel, None);
    clear_input_channel(&mut channel);
    assert_eq!(channel, None);
}

/// Starts to capture through `tx`, where the hooks can be installed or not. Returns the hooks
/// that were tried, and the one that failed.
fn start(
    channel: &mut Option<u8>,
    tx: u8,
    mouse: bool,
    keyboard: bool,
) -> (Vec<Hook>, Option<Hook>) {
    let mut tried: Vec<Hook> = Vec::new();
    let mut action: CaptureAction<u8> = start_input_capture(tx);
    loop {
        action = match action {
            CaptureAction::Install(capture) => {
                tried.push(capture.hook);
                let installed = if capture.hook == Hook::Mouse { mouse } else { keyboard };
                capture.next(channel, installed)
            }
            CaptureAction::Done => return (tried, None),
            CaptureAction::Fail(hook) => return (tried, Some(hook)),
        };
    }
}

#[test]
fn capturing_installs_both_hooks() {
    let mut channel: Option<u8> = None;
    assert_eq!(
        start(&mut channel, 3, true, true),
        (vec![Hook::Mouse, Hook::Keyboard], None)
    );
    assert_eq!(channel, Some(3));
}

#[test]
fn a_capture_that_fails_leaves_the_channel() {
    for before in [None, Some(9)] {
        let mut channel: Option<u8> = before;
        assert_eq!(
            start(&mut channel, 3, false, true),
            (vec![Hook::Mouse], Some(Hook::Mouse))
        );
        assert_eq!(channel, before);
        assert_eq!(
            start(&mut channel, 3, true, false),
            (vec![Hook::Mouse, Hook::Keyboard], Some(Hook::Keyboard))
        );
        assert_eq!(channel, before);
    }
    // Nor does it change between the hooks.
    let mut channel: Option<u8> = Some(9);
    let first = InputCapture { tx: 3, hook: Hook::Mouse };
    assert!(matches!(
        first.next(&mut channel, true),
        CaptureAction::Install(InputCapture { tx: 3, hook: Hook::Keyboard })
    ));
    assert_eq!(channel, Some(9));
    assert_eq!(Hook::Mouse.failure(), "SetWindowsHookExW(WH_MOUSE_LL) failed");
    assert_eq!(Hook::Keyboard.failure(), "SetWindowsHookExW(WH_KEYBOARD_LL) failed");
}

#[test]
fn hooks_send_through_their_channel() {
    let key = Message::KeyEvent { keycode: 1, pressed: true };
    let mut channel: Option<u8> = None;
    assert_eq!(deliver(&channel, Some(key.clone())), None);
    set_input_channel(&mut channel, 7);
    assert_eq!(deliver(&channel, Some(key.clone())), Some((&7, key.clone())));
    assert_eq!(deliver(&channel, None), None);
    clear_input_channel(&mut channel);
    assert_eq!(deliver(&channel, Some(key)), None);
}

#[test]
fn clicks_are_injected() {
    assert_eq!(inject_mouse_click(0, true), Some(ButtonEvent::LeftMouseDown));
    assert_eq!(inject_mouse_click(0, false), Some(ButtonEvent::LeftMouseUp));
    assert_eq!(inject_mouse_click(1, true), Some(ButtonEvent::RightMouseDown));
    assert_eq!(inject_mouse_click(1, false), Some(ButtonEvent::RightMouseUp));
    assert_eq!(inject_mouse_click(2, true), Some(ButtonEvent::CenterMouseDown));
    assert_eq!(inject_mouse_click(2, false), Some(ButtonEvent::CenterMouseUp));
    for button in [3, 255] {
        assert_eq!(inject_mouse_click(button, true), None);
        assert_eq!(inject_mouse_click(button, false), None);
    }
}

#[test]
fn messages_become_injections() {
    assert!(matches!(
        injection(&Message::KeyEvent { keycode: 0x1_0041, pressed: true }),
        Injection::Key { keycode: 0x41, pressed: true }
    ));
    assert!(matches!(injection(&Message::Disconnect), Injection::ClientLeft));
    assert!(matches!(
        injection(&Message::Handshake { version: 1, width: 2, height: 3, fps: 4 }),
        Injection::Nothing
    ));
    assert!(matches!(
        injection(&Message::VideoFrame { timestamp_ms: 0, data: vec![] }),
        Injection::Nothing
    ));
}

#[test]
fn inputs_reach_the_server() {
    for (event, expected) in [
        (WM_LBUTTONDOWN, ButtonEvent::LeftMouseDown),
        (WM_LBUTTONUP, ButtonEvent::LeftMouseUp),
        (WM_RBUTTONDOWN, ButtonEvent::RightMouseDown),
        (WM_RBUTTONUP, ButtonEvent::RightMouseUp),
        (WM_MBUTTONDOWN, ButtonEvent::CenterMouseDown),
        (WM_MBUTTONUP, ButtonEvent::CenterMouseUp),
    ] {
        let msg = match mouse_hook(0, event as usize) {
            MouseCapture::Send(msg) => msg,
            _ => panic!("the click is lost"),
        };
        match injection(&over_the_wire(&msg)) {
            Injection::Click { button, pressed } => {
                assert_eq!(inject_mouse_click(button, pressed), Some(expected))
            }
            _ => panic!("the click is not injected"),
        }
    }
    let msg = keyboard_hook(0, WM_KEYDOWN as usize, 0x5A).unwrap();
    assert!(matches!(
        injection(&over_the_wire(&msg)),
        Injection::Key { keycode: 0x5A, pressed: true }
    ));
}
