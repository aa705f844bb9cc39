//! Mouse and keyboard: what the client's hooks make of the events of its system, and what the
//! server makes of the messages that arrive.

use vstd::prelude::*;

use crate::protocol;
use crate::protocol::{Coord, Message, MessageView, ProtocolError};

verus! {

// ---------------------------------------------------------------------------
// Client: capturing
// ---------------------------------------------------------------------------

pub const WM_KEYDOWN: u32 = 0x0100;

pub const WM_SYSKEYDOWN: u32 = 0x0104;

pub const WM_MOUSEMOVE: u32 = 0x0200;

pub const WM_LBUTTONDOWN: u32 = 0x0201;

pub const WM_LBUTTONUP: u32 = 0x0202;

pub const WM_RBUTTONDOWN: u32 = 0x0204;

pub const WM_RBUTTONUP: u32 = 0x0205;

pub const WM_MBUTTONDOWN: u32 = 0x0207;

pub const WM_MBUTTONUP: u32 = 0x0208;

/// What a mouse hook sends, before it passes the event on.
pub enum MouseCapture {
    /// Nothing.
    Nothing,
    /// A `MouseMove` with the place of the pointer.
    Position,
    /// This message.
    Send(Message),
}

/// What a mouse event of the system is captured as.
pub open spec fn captured_mouse(event: u32) -> MouseCapture {
    if event == WM_MOUSEMOVE {
        MouseCapture::Position
    } else if event == WM_LBUTTONDOWN || event == WM_LBUTTONUP {
        MouseCapture::Send(Message::MouseClick { button: 0, pressed: event == WM_LBUTTONDOWN })
    } else if event == WM_RBUTTONDOWN || event == WM_RBUTTONUP {
        MouseCapture::Send(Message::MouseClick { button: 1, pressed: event == WM_RBUTTONDOWN })
    } else if event == WM_MBUTTONDOWN || event == WM_MBUTTONUP {
        MouseCapture::Send(Message::MouseClick { button: 2, pressed: event == WM_MBUTTONDOWN })
    } else {
        MouseCapture::Nothing
    }
}

/// What the mouse hook sends. A negative code is not for the hook. Only the low half of
/// `wparam` tells the event.
pub fn mouse_hook(code: i32, wparam: usize) -> (r: MouseCapture)
    ensures
        r == if code >= 0 {
            captured_mouse(wparam as u32)
        } else {
            MouseCapture::Nothing
        },
{
    if code < 0 {
        return MouseCapture::Nothing;
    }
    let event: u32 = wparam as u32;
    if event == WM_MOUSEMOVE {
        MouseCapture::Position
    } else if event == WM_LBUTTONDOWN {
        MouseCapture::Send(Message::MouseClick { button: 0, pressed: true })
    } else if event == WM_LBUTTONUP {
        MouseCapture::Send(Message::MouseClick { button: 0, pressed: false })
    } else if event == WM_RBUTTONDOWN {
        MouseCapture::Send(Message::MouseClick { button: 1, pressed: true })
    } else if event == WM_RBUTTONUP {
        MouseCapture::Send(Message::MouseClick { button: 1, pressed: false })
    } else if event == WM_MBUTTONDOWN {
        MouseCapture::Send(Message::MouseClick { button: 2, pressed: true })
    } else if event == WM_MBUTTONUP {
        MouseCapture::Send(Message::MouseClick { button: 2, pressed: false })
    } else {
        MouseCapture::Nothing
    }
}

/// What a keyboard event of the system is captured as.
pub open spec fn captured_key(event: u32, key: u32) -> Message {
    Message::KeyEvent { keycode: key, pressed: event == WM_KEYDOWN || event == WM_SYSKEYDOWN }
}

/// What the keyboard hook sends, before it passes the event on. A negative code is not for the
/// hook. Only the low half of `wparam` tells the event.
pub fn keyboard_hook(code: i32, wparam: usize, key: u32) -> (r: Option<Message>)
    ensures
        r == if code >= 0 {
            Some(captured_key(wparam as u32, key))
        } else {
            None
        },
{
    if code < 0 {
        return None;
    }
    let event: u32 = wparam as u32;
    Some(
        Message::KeyEvent {
            keycode: key,
            pressed: event == WM_KEYDOWN || event == WM_SYSKEYDOWN,
        },
    )
}

/// Sets the channel that the hooks send to.
pub fn set_input_channel<T>(channel: &mut Option<T>, tx: T)
    ensures
        *final(channel) == Some(tx),
{
    *channel = Some(tx);
}

/// Removes the channel that the hooks send to.
pub fn clear_input_channel<T>(channel: &mut Option<T>)
    ensures
        *final(channel) == None::<T>,
{
    *channel = None;
}

/// What a hook sends, and through which channel: what was captured, where there is a channel.
pub open spec fn delivered<T>(channel: Option<T>, captured: Option<Message>) -> Option<
    (T, Message),
> {
    match (channel, captured) {
        (Some(tx), Some(msg)) => Some((tx, msg)),
        _ => None,
    }
}

/// What a hook sends, and through which channel.
pub fn deliver<'a, T>(channel: &'a Option<T>, captured: Option<Message>) -> (r: Option<
    (&'a T, Message),
>)
    ensures
        match r {
            Some((tx, msg)) => delivered(*channel, captured) == Some((*tx, msg)),
            None => delivered(*channel, captured) is None,
        },
{
    match (channel, captured) {
        (Some(tx), Some(msg)) => Some((tx, msg)),
        _ => None,
    }
}

/// What is captured goes through the channel that was set, and nothing is sent behind removing
/// the channel.
pub proof fn law_hooks_send_through_their_channel<T>(tx: T, captured: Option<Message>)
    ensures
        delivered(Some(tx), captured) == match captured {
            Some(msg) => Some((tx, msg)),
            None => None,
        },
        delivered(None::<T>, captured) is None,
{
}

/// A hook that captures input.
#[derive(Debug, Clone, Copy, PartialEq, Eq, Structural)]
pub enum Hook {
    Mouse,
    Keyboard,
}

/// A capture that is being started: `hook` is to be installed, and what is captured is to go
/// through `tx`.
pub struct InputCapture<T> {
    pub tx: T,
    pub hook: Hook,
}

/// What starting to capture does next.
pub enum CaptureAction<T> {
    /// Install the hook of this capture.
    Install(InputCapture<T>),
    /// Both hooks are installed, and what they capture goes through the channel.
    Done,
    /// This hook could not be installed.
    Fail(Hook),
}

/// Begins to capture through `tx`. The hook of the mouse is installed first.
pub fn start_input_capture<T>(tx: T) -> (action: CaptureAction<T>)
    ensures
        action == CaptureAction::Install(InputCapture { tx, hook: Hook::Mouse }),
{
    CaptureAction::Install(InputCapture { tx, hook: Hook::Mouse })
}

impl<T> InputCapture<T> {
    /// What follows installing the hook, and the channel behind it. The channel is set with the
    /// last hook. Where a hook could not be installed, the channel stays as it was.
    pub open spec fn after(self, channel: Option<T>, installed: bool) -> (
        CaptureAction<T>,
        Option<T>,
    ) {
        match (self.hook, installed) {
            (_, false) => (CaptureAction::Fail(self.hook), channel),
            (Hook::Mouse, true) => (
                CaptureAction::Install(InputCapture { tx: self.tx, hook: Hook::Keyboard }),
                channel,
            ),
            (Hook::Keyboard, true) => (CaptureAction::Done, Some(self.tx)),
        }
    }

    /// What follows installing the hook.
    pub fn next(self, channel: &mut Option<T>, installed: bool) -> (action: CaptureAction<T>)
        ensures
            (action, *final(channel)) == self.after(*old(channel), installed),
    {
        if !installed {
            return CaptureAction::Fail(self.hook);
        }
        match self.hook {
            Hook::Mouse => CaptureAction::Install(
                InputCapture { tx: self.tx, hook: Hook::Keyboard },
            ),
            Hook::Keyboard => {
                set_input_channel(channel, self.tx);
                CaptureAction::Done
            },
        }
    }
}

/// Capturing begins with both hooks or not at all: where both are installed, what they capture
/// goes through the new channel, and where one is not, through the channel from before, if there
/// was one.
pub proof fn law_capture_is_all_or_nothing<T>(
    tx: T,
    channel: Option<T>,
    mouse: bool,
    keyboard: bool,
)
    ensures
        ({
            let (first, between) = InputCapture { tx, hook: Hook::Mouse }.after(channel, mouse);
            &&& between == channel
            &&& !mouse ==> first == CaptureAction::<T>::Fail(Hook::Mouse)
            &&& mouse ==> {
                &&& first == CaptureAction::Install(InputCapture { tx, hook: Hook::Keyboard })
                &&& first->Install_0.after(between, keyboard) == if keyboard {
                    (CaptureAction::<T>::Done, Some(tx))
                } else {
                    (CaptureAction::<T>::Fail(Hook::Keyboard), channel)
                }
            }
        }),
{
}

impl Hook {
    /// The error where the hook could not be installed, in words.
    pub fn failure(&self) -> (r: &'static str)
        ensures
            r@ == match self {
                Hook::Mouse => "SetWindowsHookExW(WH_MOUSE_LL) failed"@,
                Hook::Keyboard => "SetWindowsHookExW(WH_KEYBOARD_LL) failed"@,
            },
    {
        match self {
            Hook::Mouse => "SetWindowsHookExW(WH_MOUSE_LL) failed",
            Hook::Keyboard => "SetWindowsHookExW(WH_KEYBOARD_LL) failed",
        }
    }
}

// ---------------------------------------------------------------------------
// Server: injecting
// ---------------------------------------------------------------------------

/// What the server does with a message of a client.
pub enum Injection {
    /// Move the pointer to this place.
    Move { x: Coord, y: Coord },
    /// Press or release a mouse button.
    Click { button: u8, pressed: bool },
    /// Press or release a key.
    Key { keycode: u16, pressed: bool },
    /// Note that the client left.
    ClientLeft,
    /// Nothing.
    Nothing,
}

/// What the server does with a message of a client. Only the low half of a key code tells the
/// key.
pub open spec fn injection_of(msg: Message) -> Injection {
    match msg {
        Message::MouseMove { x, y } => Injection::Move { x, y },
        Message::MouseClick { button, pressed } => Injection::Click { button, pressed },
        Message::KeyEvent { keycode, pressed } => Injection::Key {
            keycode: keycode as u16,
            pressed,
        },
        Message::Disconnect => Injection::ClientLeft,
        _ => Injection::Nothing,
    }
}

/// What the server does with a message of a client.
pub fn injection(msg: &Message) -> (r: Injection)
    ensures
        r == injection_of(*msg),
{
    match msg {
        Message::MouseMove { x, y } => Injection::Move { x: *x, y: *y },
        Message::MouseClick { button, pressed } => Injection::Click {
            button: *button,
            pressed: *pressed,
        },
        Message::KeyEvent { keycode, pressed } => Injection::Key {
            keycode: *keycode as u16,
            pressed: *pressed,
        },
        Message::Disconnect => Injection::ClientLeft,
        _ => Injection::Nothing,
    }
}

/// A button event that the server's system knows.
#[derive(Debug, Clone, Copy, PartialEq, Eq, Structural)]
pub enum ButtonEvent {
    LeftMouseDown,
    LeftMouseUp,
    RightMouseDown,
    RightMouseUp,
    CenterMouseDown,
    CenterMouseUp,
}

/// The event that a click is injected as: button 0 is the left one, 1 the right one and 2 the
/// one in the centre. Clicks of other buttons are not injected.
pub open spec fn button_event(button: u8, pressed: bool) -> Option<ButtonEvent> {
    if button == 0 {
        Some(
            if pressed {
                ButtonEvent::LeftMouseDown
            } else {
                ButtonEvent::LeftMouseUp
            },
        )
    } else if button == 1 {
        Some(
            if pressed {
                ButtonEvent::RightMouseDown
            } else {
                ButtonEvent::RightMouseUp
            },
        )
    } else if button == 2 {
        Some(
            if pressed {
                ButtonEvent::CenterMouseDown
            } else {
                ButtonEvent::CenterMouseUp
            },
        )
    } else {
        None
    }
}

/// The event that a click is injected as, or `None` where it is not.
pub fn inject_mouse_click(button: u8, pressed: bool) -> (r: Option<ButtonEvent>)
    ensures
        r == button_event(button, pressed),
{
    match (button, pressed) {
        (0, true) => Some(ButtonEvent::LeftMouseDown),
        (0, false) => Some(ButtonEvent::LeftMouseUp),
        (1, true) => Some(ButtonEvent::RightMouseDown),
        (1, false) => Some(ButtonEvent::RightMouseUp),
        (2, true) => Some(ButtonEvent::CenterMouseDown),
        (2, false) => Some(ButtonEvent::CenterMouseUp),
        _ => None,
    }
}

// ---------------------------------------------------------------------------
// From the client to the server
// ---------------------------------------------------------------------------

/// A click of one of the client's buttons is injected by the server as the same button going
/// the same way, and no other event of the client's mouse is injected as a click.
pub proof fn law_clicks_arrive(event: u32)
    ensures
        ({
            let injected = match captured_mouse(event) {
                MouseCapture::Send(msg) => match injection_of(msg) {
                    Injection::Click { button, pressed } => button_event(button, pressed),
                    _ => None,
                },
                _ => None,
            };
            &&& injected == Some(ButtonEvent::LeftMouseDown) <==> event == WM_LBUTTONDOWN
            &&& injected == Some(ButtonEvent::LeftMouseUp) <==> event == WM_LBUTTONUP
            &&& injected == Some(ButtonEvent::RightMouseDown) <==> event == WM_RBUTTONDOWN
            &&& injected == Some(ButtonEvent::RightMouseUp) <==> event == WM_RBUTTONUP
            &&& injected == Some(ButtonEvent::CenterMouseDown) <==> event == WM_MBUTTONDOWN
            &&& injected == Some(ButtonEvent::CenterMouseUp) <==> event == WM_MBUTTONUP
        }),
{
}

/// A key of the client is injected by the server as the same key going the same way, as far as
/// its code fits in a key code of the server.
pub proof fn law_keys_arrive(event: u32, key: u32)
    requires
        key <= u16::MAX,
    ensures
        injection_of(captured_key(event, key)) == (Injection::Key {
            keycode: key as u16,
            pressed: event == WM_KEYDOWN || event == WM_SYSKEYDOWN,
        }),
        key as u16 == key,
{
}

/// An input loses nothing on the wire: what the server reads of a stream that starts with it is
/// the input, and it is injected as such.
pub proof fn law_inputs_survive_the_wire(
    sent: Message,
    tail: Seq<u8>,
    outcome: Result<MessageView, ProtocolError>,
    used: nat,
    read: Message,
)
    requires
        sent is MouseMove || sent is MouseClick || sent is KeyEvent || sent is Disconnect,
        protocol::read_outcome(sent@.framed() + tail, outcome, used),
        outcome is Ok ==> outcome->Ok_0 == read@,
    ensures
        outcome is Ok,
        read == sent,
        injection_of(read) == injection_of(sent),
{
    protocol::lemma_payload_len(sent@);
    protocol::law_read_after_write(sent@, tail, outcome, used);
}

/// An input is injected as it was sent: what the server reads of a stream that starts with a
/// place of the pointer moves the pointer there, bit for bit and each coordinate on its own axis;
/// a click is of the same button and goes the same way; a key has the low half of its code and
/// goes the same way; and a farewell is one.
pub proof fn law_inputs_are_injected_as_sent(
    sent: Message,
    tail: Seq<u8>,
    outcome: Result<MessageView, ProtocolError>,
    used: nat,
    read: Message,
)
    requires
        protocol::read_outcome(sent@.framed() + tail, outcome, used),
        outcome is Ok ==> outcome->Ok_0 == read@,
    ensures
        match sent {
            Message::MouseMove { x, y } => injection_of(read) matches Injection::Move {
                x: to_x,
                y: to_y,
            } && to_x.bits == x.bits && to_y.bits == y.bits,
            Message::MouseClick { button, pressed } => injection_of(read) matches Injection::Click {
                button: of,
                pressed: down,
            } && of == button && down == pressed,
            Message::KeyEvent { keycode, pressed } => injection_of(read) matches Injection::Key {
                keycode: of,
                pressed: down,
            } && of == keycode % 0x1_0000 && down == pressed,
            Message::Disconnect => injection_of(read) is ClientLeft,
            _ => true,
        },
{
    protocol::lemma_payload_len(sent@);
    match sent {
        Message::KeyEvent { keycode, .. } => {
            law_inputs_survive_the_wire(sent, tail, outcome, used, read);
            assert(keycode as u16 == keycode % 0x1_0000) by (bit_vector);
        },
        Message::MouseMove { .. } | Message::MouseClick { .. } | Message::Disconnect => {
            law_inputs_survive_the_wire(sent, tail, outcome, used, read);
        },
        _ => {},
    }
}

/// What the server does with a message moves the pointer, clicks, presses a key or notes a
/// farewell exactly where the message is of that sort, and takes from it what it says.
pub proof fn law_each_message_has_its_injection(msg: Message, injected: Injection)
    requires
        call_ensures(injection, (&msg,), injected),
    ensures
        match msg {
            Message::MouseMove { x, y } => injected matches Injection::Move { x: to_x, y: to_y }
                && to_x.bits == x.bits && to_y.bits == y.bits,
            _ => !(injected is Move),
        },
        match msg {
            Message::MouseClick { button, pressed } => injected matches Injection::Click {
                button: of,
                pressed: down,
            } && of == button && down == pressed,
            _ => !(injected is Click),
        },
        match msg {
            Message::KeyEvent { keycode, pressed } => injected matches Injection::Key {
                keycode: of,
                pressed: down,
            } && of == keycode % 0x1_0000 && down == pressed,
            _ => !(injected is Key),
        },
        injected is ClientLeft <==> msg is Disconnect,
{
    if let Message::KeyEvent { keycode, .. } = msg {
        assert(keycode as u16 == keycode % 0x1_0000) by (bit_vector);
    }
}

/// The mouse hook sends a click for exactly the six button events of the system, with 0 for the
/// left, 1 for the right and 2 for the centre button, asks for the pointer's place where it
/// moved, and sends nothing for other events and for codes that are not for it.
pub proof fn law_mouse_hook_knows_its_events(code: i32, wparam: usize, captured: MouseCapture)
    requires
        call_ensures(mouse_hook, (code, wparam), captured),
    ensures
        ({
            let event = wparam as u32;
            let click = |button: u8, pressed: bool|
                MouseCapture::Send(Message::MouseClick { button, pressed });
            &&& captured is Position <==> code >= 0 && event == 0x0200
            &&& captured == click(0, true) <==> code >= 0 && event == 0x0201
            &&& captured == click(0, false) <==> code >= 0 && event == 0x0202
            &&& captured == click(1, true) <==> code >= 0 && event == 0x0204
            &&& captured == click(1, false) <==> code >= 0 && event == 0x0205
            &&& captured == click(2, true) <==> code >= 0 && event == 0x0207
            &&& captured == click(2, false) <==> code >= 0 && event == 0x0208
            &&& captured is Nothing <==> code < 0 || !(0x0200 <= event <= 0x0202 || 0x0204 <= event
                <= 0x0205 || 0x0207 <= event <= 0x0208)
        }),
{
}

/// The keyboard hook sends each key that is for it, by its own code, as pressed exactly behind
/// the two events of a key that goes down.
pub proof fn law_keyboard_hook_sends_each_key(
    code: i32,
    wparam: usize,
    key: u32,
    captured: Option<Message>,
)
    requires
        call_ensures(keyboard_hook, (code, wparam, key), captured),
    ensures
        captured is Some <==> code >= 0,
        captured matches Some(msg) ==> msg matches Message::KeyEvent { keycode, pressed } && keycode
            == key && pressed == (wparam as u32 == 0x0100 || wparam as u32 == 0x0104),
{
}

/// A click is injected exactly for the buttons 0 to 2, as the left, the right and the centre
/// button, down where it was pressed and up where it was released.
pub proof fn law_clicks_name_button_and_way(
    button: u8,
    pressed: bool,
    injected: Option<ButtonEvent>,
)
    requires
        call_ensures(inject_mouse_click, (button, pressed), injected),
    ensures
        injected is Some <==> button <= 2,
        injected == Some(ButtonEvent::LeftMouseDown) <==> button == 0 && pressed,
        injected == Some(ButtonEvent::LeftMouseUp) <==> button == 0 && !pressed,
        injected == Some(ButtonEvent::RightMouseDown) <==> button == 1 && pressed,
        injected == Some(ButtonEvent::RightMouseUp) <==> button == 1 && !pressed,
        injected == Some(ButtonEvent::CenterMouseDown) <==> button == 2 && pressed,
        injected == Some(ButtonEvent::CenterMouseUp) <==> button == 2 && !pressed,
{
}

} // verus!
