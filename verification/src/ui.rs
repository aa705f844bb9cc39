//! The state behind the window: what it shows, and what the user's input does to it.

use vstd::prelude::*;

use crate::text;

verus! {

/// How long an error is shown, in nanoseconds.
pub const ERROR_NANOS: u128 = 4_000_000_000;

/// What the application is doing.
#[derive(Debug, Clone, PartialEq)]
pub enum AppState {
    Idle,
    Listening,
    Connecting,
    Connected { peer_ip: String, width: u32, height: u32 },
    Error(String),
}

/// The application behind the window. Times are in nanoseconds since its start.
pub struct RemotedeskApp {
    state: AppState,
    local_ip: String,
    host_input: String,
    error_since: Option<u128>,
    framebuffer: Vec<u8>,
    framebuffer_w: u32,
    framebuffer_h: u32,
    frame_dirty: bool,
}

/// What an application holds.
pub struct AppModel {
    pub state: AppState,
    /// The address of this machine in its network.
    pub local_ip: Seq<char>,
    /// The address of the host, as far as the user has typed it.
    pub host_input: Seq<char>,
    /// Since when an error is shown.
    pub error_since: Option<u128>,
    /// The newest frame, in RGBA.
    pub framebuffer: Seq<u8>,
    pub framebuffer_w: u32,
    pub framebuffer_h: u32,
    /// Whether the newest frame has not been uploaded yet.
    pub frame_dirty: bool,
}

impl View for RemotedeskApp {
    type V = AppModel;

    closed spec fn view(&self) -> AppModel {
        AppModel {
            state: self.state,
            local_ip: self.local_ip@,
            host_input: self.host_input@,
            error_since: self.error_since,
            framebuffer: self.framebuffer@,
            framebuffer_w: self.framebuffer_w,
            framebuffer_h: self.framebuffer_h,
            frame_dirty: self.frame_dirty,
        }
    }
}

/// What the window shows.
pub enum Screen {
    /// The connection panel.
    Panel,
    /// The connection panel, and a bar with this error above it.
    PanelWithError(String),
    /// The remote desktop.
    Fullscreen { peer_ip: String, width: u32, height: u32 },
}

/// A texture: RGBA with the colours multiplied by the opacity.
pub struct Texture {
    pub width: u32,
    pub height: u32,
    pub pixels: Vec<u8>,
}

/// What drawing the window takes.
pub struct Drawing {
    /// The texture of the newest frame, where it is to be uploaded first.
    pub upload: Option<Texture>,
    pub screen: Screen,
}

/// What the user did in the connection panel.
#[derive(Debug, Clone, Copy, PartialEq, Eq, Structural)]
pub enum PanelInput {
    /// The address field was drawn: whether it lost the focus, and whether Enter was pressed.
    AddressField { lost_focus: bool, enter: bool },
    /// The connect button was drawn: whether it was clicked.
    ConnectButton { clicked: bool },
}

/// The status line of the connection panel.
#[derive(Debug, Clone, Copy, PartialEq)]
pub struct Status {
    /// Whether something is in progress.
    pub spinner: bool,
    pub text: &'static str,
}

impl AppState {
    /// Whether a connection exists or is being made.
    pub open spec fn is_busy(self) -> bool {
        self is Connecting || self is Connected
    }

    /// What the window shows in the state.
    pub open spec fn shown(self) -> Screen {
        match self {
            AppState::Connected { peer_ip, width, height } => Screen::Fullscreen {
                peer_ip,
                width,
                height,
            },
            AppState::Error(msg) => Screen::PanelWithError(msg),
            _ => Screen::Panel,
        }
    }

    /// What the window shows in the state.
    pub fn screen(&self) -> (r: Screen)
        ensures
            r == self.shown(),
    {
        match self {
            AppState::Idle | AppState::Listening | AppState::Connecting => Screen::Panel,
            AppState::Connected { peer_ip, width, height } => Screen::Fullscreen {
                peer_ip: peer_ip.clone(),
                width: *width,
                height: *height,
            },
            AppState::Error(msg) => Screen::PanelWithError(msg.clone()),
        }
    }

    /// The status line of the connection panel in the state, where it has one.
    pub fn status(&self) -> (r: Option<Status>)
        ensures
            match self {
                AppState::Idle => r is Some && !r->Some_0.spinner && r->Some_0.text@
                    == "● Listo"@,
                AppState::Listening => r is Some && !r->Some_0.spinner && r->Some_0.text@
                    == "● Esperando conexión entrante"@,
                AppState::Connecting => r is Some && r->Some_0.spinner && r->Some_0.text@
                    == "Conectando..."@,
                AppState::Connected { .. } | AppState::Error(_) => r is None,
            },
    {
        match self {
            AppState::Idle => Some(Status { spinner: false, text: "● Listo" }),
            AppState::Listening => Some(
                Status { spinner: false, text: "● Esperando conexión entrante" },
            ),
            AppState::Connecting => Some(Status { spinner: true, text: "Conectando..." }),
            AppState::Connected { .. } | AppState::Error(_) => None,
        }
    }
}

impl AppModel {
    /// Whether the application's parts belong together: an error has a start, and while the
    /// application is connected, its frames have the size of the remote desktop.
    pub open spec fn wf(self) -> bool {
        &&& self.state is Error ==> self.error_since is Some
        &&& self.state matches AppState::Connected { width, height, .. } ==> self.framebuffer_w
            == width && self.framebuffer_h == height
    }

    /// The application at its start.
    pub open spec fn start(local_ip: Seq<char>) -> AppModel {
        AppModel {
            state: AppState::Idle,
            local_ip,
            host_input: ""@,
            error_since: None,
            framebuffer: Seq::empty(),
            framebuffer_w: 0,
            framebuffer_h: 0,
            frame_dirty: false,
        }
    }

    /// The application that enters `state` at the time `now`. The time of an error runs from
    /// then on, and a connection sets the size of the frames.
    pub open spec fn entered(self, state: AppState, now: u128) -> AppModel {
        AppModel {
            state,
            error_since: if state is Error {
                Some(now)
            } else {
                None
            },
            framebuffer_w: match state {
                AppState::Connected { width, .. } => width,
                _ => self.framebuffer_w,
            },
            framebuffer_h: match state {
                AppState::Connected { height, .. } => height,
                _ => self.framebuffer_h,
            },
            ..self
        }
    }

    /// Whether the user may edit the address of the host.
    pub open spec fn may_edit(self) -> bool {
        !self.state.is_busy()
    }

    /// Whether the user may connect.
    pub open spec fn may_connect(self) -> bool {
        text::is_ipv4(self.host_input) && !self.state.is_busy()
    }

    /// The application that begins to connect.
    pub open spec fn connecting(self) -> AppModel {
        AppModel { state: AppState::Connecting, error_since: None, ..self }
    }

    /// What an input in the panel does, where `can_connect` tells whether the user could connect
    /// when the panel was drawn: the application begins to connect, or nothing changes.
    pub open spec fn after_input(self, can_connect: bool, input: PanelInput) -> AppModel {
        if input.asks() && can_connect {
            self.connecting()
        } else {
            self
        }
    }

    /// The application behind `frames`, which arrived in this order: the last one counts.
    pub open spec fn polled(self, frames: Seq<Vec<u8>>) -> AppModel {
        if frames.len() > 0 {
            AppModel { framebuffer: frames.last()@, frame_dirty: true, ..self }
        } else {
            self
        }
    }

    /// Whether an error is shown long enough at the time `now`. A time before the error's start
    /// counts as its start.
    pub open spec fn error_is_over(self, now: u128) -> bool {
        &&& self.state is Error
        &&& self.error_since matches Some(since) && now - since >= ERROR_NANOS
    }

    /// The application at the time `now`: an error that is shown long enough is over.
    pub open spec fn at(self, now: u128) -> AppModel {
        if self.error_is_over(now) {
            AppModel { state: AppState::Idle, error_since: None, ..self }
        } else {
            self
        }
    }

    /// Whether the newest frame has the bytes of an RGBA image of the framebuffer's size.
    pub open spec fn has_whole_frame(self) -> bool {
        self.framebuffer_w * self.framebuffer_h * 4 == self.framebuffer.len()
    }

    /// Whether the newest frame is to be uploaded.
    pub open spec fn needs_upload(self) -> bool {
        self.frame_dirty && self.framebuffer.len() > 0 && self.has_whole_frame()
    }

    /// The application before it is drawn at the time `now`, behind `frames`, which arrived since
    /// it was last drawn.
    pub open spec fn before_drawing(self, frames: Seq<Vec<u8>>, now: u128) -> AppModel {
        self.polled(frames).at(now)
    }

    /// The application that was drawn at the time `now`, behind `frames`.
    pub open spec fn drawn(self, frames: Seq<Vec<u8>>, now: u128) -> AppModel {
        let app = self.before_drawing(frames, now);
        AppModel { frame_dirty: app.frame_dirty && !app.needs_upload(), ..app }
    }

    /// The application behind a series of drawings.
    pub open spec fn drawn_all(self, drawings: Seq<(Seq<Vec<u8>>, u128)>) -> AppModel
        decreases drawings.len(),
    {
        if drawings.len() == 0 {
            self
        } else {
            let last = drawings.last();
            self.drawn_all(drawings.drop_last()).drawn(last.0, last.1)
        }
    }
}

impl PanelInput {
    /// Whether the user asks to connect.
    pub open spec fn asks(self) -> bool {
        match self {
            PanelInput::AddressField { lost_focus, enter } => lost_focus && enter,
            PanelInput::ConnectButton { clicked } => clicked,
        }
    }
}

/// Whether the pixels `texture` can come out of `premultiplied` for exactly the image `rgba` of
/// this size. Of a translucent colour there is no more to say than that.
pub closed spec fn made_of(width: usize, height: usize, rgba: Seq<u8>, texture: Seq<u8>) -> bool {
    exists|image: &[u8], pixels: Vec<u8>|
        {
            &&& image@ == rgba
            &&& pixels@ == texture
            &&& #[trigger] call_ensures(premultiplied, (width, height, image), pixels)
        }
}

/// Whether `texture` shows the newest frame of the application.
pub open spec fn shows_frame(app: AppModel, texture: Texture) -> bool {
    &&& texture.width == app.framebuffer_w
    &&& texture.height == app.framebuffer_h
    &&& made_of(
        app.framebuffer_w as usize,
        app.framebuffer_h as usize,
        app.framebuffer,
        texture.pixels@,
    )
    &&& texture.pixels@.len() == app.framebuffer.len()
    &&& forall|p: int|
        0 <= p < app.framebuffer_w * app.framebuffer_h ==> #[trigger] texel_shows(
            app.framebuffer,
            texture.pixels@,
            p,
        )
}

impl RemotedeskApp {
    #[verifier::type_invariant]
    spec fn inv(self) -> bool {
        self@.wf()
    }

    /// The application at its start. `local_ip` is `None` where the address is not known.
    pub fn new(local_ip: Option<String>) -> (app: RemotedeskApp)
        ensures
            app@ == AppModel::start(
                match local_ip {
                    Some(ip) => ip@,
                    None => "desconocida"@,
                },
            ),
            app@.wf(),
    {
        let local_ip = match local_ip {
            Some(ip) => ip,
            None => "desconocida".to_owned(),
        };
        proof {
            reveal_strlit("");
        }
        let host_input = String::new();
        assert(host_input@ =~= ""@);
        let framebuffer: Vec<u8> = Vec::new();
        assert(framebuffer@ =~= Seq::<u8>::empty());
        RemotedeskApp {
            state: AppState::Idle,
            local_ip,
            host_input,
            error_since: None,
            framebuffer,
            framebuffer_w: 0,
            framebuffer_h: 0,
            frame_dirty: false,
        }
    }

    /// What the application is doing.
    pub fn state(&self) -> (r: &AppState)
        ensures
            *r == self@.state,
    {
        &self.state
    }

    /// The address of this machine in its network.
    pub fn local_ip(&self) -> (r: &str)
        ensures
            r@ == self@.local_ip,
    {
        self.local_ip.as_str()
    }

    /// The address of the host, as far as the user has typed it.
    pub fn host_input(&self) -> (r: &str)
        ensures
            r@ == self@.host_input,
    {
        self.host_input.as_str()
    }

    /// Takes what the user has typed as the address of the host.
    pub fn set_host_input(&mut self, input: String)
        ensures
            final(self)@ == (AppModel { host_input: input@, ..old(self)@ }),
    {
        proof {
            use_type_invariant(&*self);
        }
        self.host_input = input;
    }

    /// Enters a state at the time `now`. The window has to be drawn again.
    pub fn set_state(&mut self, state: AppState, now: u128)
        ensures
            final(self)@ == old(self)@.entered(state, now),
            final(self)@.wf(),
    {
        proof {
            use_type_invariant(&*self);
        }
        self.state = AppState::Idle;
        self.error_since = None;
        match &state {
            AppState::Connected { width, height, .. } => {
                self.framebuffer_w = *width;
                self.framebuffer_h = *height;
            },
            AppState::Error(_) => {
                self.error_since = Some(now);
            },
            _ => {},
        }
        self.state = state;
    }

    /// Whether the text is an IPv4 address.
    pub fn validate_ip(input: &str) -> (r: bool)
        ensures
            r == text::is_ipv4(input@),
    {
        text::parses_as_ipv4(input)
    }

    /// Whether the user may edit the address of the host.
    pub fn editable(&self) -> (r: bool)
        ensures
            r == self@.may_edit(),
    {
        match self.state {
            AppState::Connecting | AppState::Connected { .. } => false,
            _ => true,
        }
    }

    /// Whether the user may connect.
    pub fn can_connect(&self) -> (r: bool)
        ensures
            r == self@.may_connect(),
    {
        RemotedeskApp::validate_ip(self.host_input.as_str()) && self.editable()
    }

    /// Begins to connect. The window has to be drawn again.
    pub fn try_connect(&mut self)
        ensures
            final(self)@ == old(self)@.connecting(),
            final(self)@.wf(),
    {
        proof {
            use_type_invariant(&*self);
        }
        self.state = AppState::Connecting;
        self.error_since = None;
    }

    /// Takes an input in the panel, and returns whether the application begins to connect. The
    /// button can be clicked only where the user can connect.
    pub fn panel_input(&mut self, can_connect: bool, input: PanelInput) -> (connects: bool)
        ensures
            final(self)@ == old(self)@.after_input(can_connect, input),
            connects == (input.asks() && can_connect),
    {
        let asks = match input {
            PanelInput::AddressField { lost_focus, enter } => lost_focus && enter,
            PanelInput::ConnectButton { clicked } => clicked,
        };
        if asks && can_connect {
            self.try_connect();
        }
        asks && can_connect
    }

    /// Takes the frames that arrived, in this order.
    pub fn poll_frames(&mut self, frames: Vec<Vec<u8>>)
        ensures
            final(self)@ == old(self)@.polled(frames@),
    {
        proof {
            use_type_invariant(&*self);
        }
        let mut frames = frames;
        if let Some(data) = frames.pop() {
            self.framebuffer = data;
            self.frame_dirty = true;
        }
    }

    /// Ends an error that is shown long enough at the time `now`.
    fn clear_error(&mut self, now: u128)
        ensures
            final(self)@ == old(self)@.at(now),
    {
        proof {
            use_type_invariant(&*self);
        }
        let over = match (&self.state, self.error_since) {
            (AppState::Error(_), Some(since)) => now >= since && now - since >= ERROR_NANOS,
            _ => false,
        };
        if over {
            self.state = AppState::Idle;
            self.error_since = None;
        }
    }

    /// Whether the newest frame is to be uploaded.
    fn wants_upload(&self) -> (r: bool)
        ensures
            r == self@.needs_upload(),
    {
        let w: u128 = self.framebuffer_w as u128;
        let h: u128 = self.framebuffer_h as u128;
        assert(w * h * 4 <= 0xFFFF_FFFF * 0xFFFF_FFFF * 4) by (nonlinear_arith)
            requires
                w <= 0xFFFF_FFFF,
                h <= 0xFFFF_FFFF,
        ;
        assert(w * h <= w * h * 4) by (nonlinear_arith)
            requires
                w >= 0,
                h >= 0,
        ;
        self.frame_dirty && self.framebuffer.len() > 0 && w * h * 4
            == self.framebuffer.len() as u128
    }

    /// The newest frame: its width, its height and its RGBA pixels.
    pub fn newest_frame(&self) -> (r: (u32, u32, &[u8]))
        ensures
            r.0 == self@.framebuffer_w,
            r.1 == self@.framebuffer_h,
            r.2@ == self@.framebuffer,
    {
        (self.framebuffer_w, self.framebuffer_h, self.framebuffer.as_slice())
    }

    /// The texture of the newest frame.
    pub fn upload_texture(&self) -> (r: Texture)
        requires
            self@.has_whole_frame(),
        ensures
            shows_frame(self@, r),
    {
        let (width, height, rgba) = self.newest_frame();
        let pixels = premultiplied(width as usize, height as usize, rgba);
        assert(made_of(width as usize, height as usize, rgba@, pixels@));
        Texture { width, height, pixels }
    }

    /// Draws the window at the time `now`, behind `frames`, which arrived since it was last
    /// drawn.
    pub fn update(&mut self, frames: Vec<Vec<u8>>, now: u128) -> (r: Drawing)
        ensures
            ({
                let app = old(self)@.before_drawing(frames@, now);
                &&& r.upload is Some <==> app.needs_upload()
                &&& r.upload matches Some(texture) ==> shows_frame(app, texture)
                &&& r.screen == app.state.shown()
            }),
            final(self)@ == old(self)@.drawn(frames@, now),
            final(self)@.wf(),
    {
        self.poll_frames(frames);
        self.clear_error(now);
        proof {
            use_type_invariant(&*self);
        }
        let upload = if self.wants_upload() {
            let texture = self.upload_texture();
            self.frame_dirty = false;
            Some(texture)
        } else {
            None
        };
        Drawing { upload, screen: self.state.screen() }
    }
}

// ---------------------------------------------------------------------------
// What is drawn
// ---------------------------------------------------------------------------

/// The lines of the overlay on the remote desktop: the peer, and the resolution.
pub fn overlay(peer_ip: &str, width: u32, height: u32) -> (r: (String, String))
    ensures
        r.0@ == "● "@ + peer_ip@,
        r.1@ == text::decimal(width as nat) + "x"@ + text::decimal(height as nat),
{
    let mut peer = String::new();
    peer.append("● ");
    peer.append(peer_ip);
    assert(peer@ =~= "● "@ + peer_ip@);
    let mut size = String::new();
    text::push_decimal(&mut size, width as u64);
    size.append("x");
    text::push_decimal(&mut size, height as u64);
    assert(size@ =~= text::decimal(width as nat) + "x"@ + text::decimal(height as nat));
    (peer, size)
}

/// Whether the pixel `p` of a texture stands for the pixel `p` of an RGBA image: the opacity is
/// kept, an opaque colour too, a colour that is not in the pixel stays out of it, and a
/// transparent pixel is all zero.
pub open spec fn texel_shows(rgba: Seq<u8>, texture: Seq<u8>, p: int) -> bool {
    &&& texture[4 * p + 3] == rgba[4 * p + 3]
    &&& rgba[4 * p] == 0 ==> texture[4 * p] == 0
    &&& rgba[4 * p + 1] == 0 ==> texture[4 * p + 1] == 0
    &&& rgba[4 * p + 2] == 0 ==> texture[4 * p + 2] == 0
    &&& rgba[4 * p + 3] == 255 ==> {
        &&& texture[4 * p] == rgba[4 * p]
        &&& texture[4 * p + 1] == rgba[4 * p + 1]
        &&& texture[4 * p + 2] == rgba[4 * p + 2]
    }
    &&& rgba[4 * p + 3] == 0 ==> {
        &&& texture[4 * p] == 0
        &&& texture[4 * p + 1] == 0
        &&& texture[4 * p + 2] == 0
    }
}

/// Whether the pixel `p` of an RGBA image is opaque.
pub open spec fn is_opaque(rgba: Seq<u8>, p: int) -> bool {
    rgba[4 * p + 3] == 255
}

/// `egui::ColorImage::from_rgba_unmultiplied`, with the pixels as bytes: one for each pixel of
/// the image, in order. It panics unless the size is that of the bytes. What becomes of a
/// translucent colour is left unsaid: it is computed in floating point.
#[verifier::external_body]
fn premultiplied(width: usize, height: usize, rgba: &[u8]) -> (r: Vec<u8>)
    requires
        width * height * 4 == rgba@.len(),
    ensures
        r@.len() == rgba@.len(),
        forall|p: int| 0 <= p < width * height ==> #[trigger] texel_shows(rgba@, r@, p),
{
    let image = egui::ColorImage::from_rgba_unmultiplied([width, height], rgba);
    image.pixels.iter().flat_map(|pixel| pixel.to_array()).collect()
}

// ---------------------------------------------------------------------------
// Laws
// ---------------------------------------------------------------------------

/// It makes no difference whether frames are taken at once or in two batches.
pub proof fn law_frames_can_come_in_batches(
    app: AppModel,
    first: Seq<Vec<u8>>,
    second: Seq<Vec<u8>>,
)
    ensures
        app.polled(first).polled(second) == app.polled(first + second),
{
    if second.len() > 0 {
        assert((first + second).last() == second.last());
    } else {
        assert(first + second =~= first);
    }
}

/// The frames of a connection are shown: behind connecting to a desktop, a frame of its size is
/// uploaded as a texture of its size when the window is next drawn, with exactly the pixels of
/// the frame where these are opaque, and the window shows the remote desktop.
pub proof fn law_connected_application_shows_frames(
    app: AppModel,
    peer_ip: String,
    width: u32,
    height: u32,
    then: u128,
    frame: Vec<u8>,
    now: u128,
    texture: Texture,
)
    requires
        width > 0,
        height > 0,
        frame@.len() == width * height * 4,
        shows_frame(
            app.entered(
                AppState::Connected { peer_ip, width, height },
                then,
            ).before_drawing(seq![frame], now),
            texture,
        ),
    ensures
        ({
            let connected = AppState::Connected { peer_ip, width, height };
            let before = app.entered(connected, then).before_drawing(seq![frame], now);
            let drawn = app.entered(connected, then).drawn(seq![frame], now);
            &&& before.needs_upload()
            &&& before.has_whole_frame()
            &&& before.framebuffer == frame@
            &&& texture.width == width && texture.height == height
            &&& (forall|p: int| 0 <= p < width * height ==> #[trigger] is_opaque(frame@, p))
                ==> texture.pixels@ == frame@
            &&& before.state.shown() == (Screen::Fullscreen { peer_ip, width, height })
            &&& !drawn.frame_dirty
            &&& drawn.state == connected
        }),
{
    assert(width * height * 4 > 0) by (nonlinear_arith)
        requires
            width > 0,
            height > 0,
    ;
    if forall|p: int| 0 <= p < width * height ==> #[trigger] is_opaque(frame@, p) {
        assert forall|i: int| 0 <= i < frame@.len() implies texture.pixels@[i] == frame@[i] by {
            let p: int = i / 4;
            assert(is_opaque(frame@, p));
            assert(texel_shows(frame@, texture.pixels@, p));
        }
        assert(texture.pixels@ =~= frame@);
    }
}

/// A frame is uploaded once: behind drawing the window nothing is to be uploaded, until a frame
/// arrives or the application enters another state.
pub proof fn law_frame_is_uploaded_once(
    app: AppModel,
    frames: Seq<Vec<u8>>,
    now: u128,
    later: u128,
)
    ensures
        !app.drawn(frames, now).needs_upload(),
        !app.drawn(frames, now).before_drawing(Seq::empty(), later).needs_upload(),
{
}

/// While a connection exists or is being made, no input in the panel changes anything.
pub proof fn law_busy_application_does_not_connect(app: AppModel, input: PanelInput)
    requires
        app.state.is_busy(),
    ensures
        !app.may_connect(),
        !app.may_edit(),
        app.after_input(app.may_connect(), input) == app,
{
}

/// An input in the panel begins a connection only to an IPv4 address that the user could still
/// edit, and no second one.
pub proof fn law_connecting_takes_an_address(app: AppModel, input: PanelInput)
    requires
        app.after_input(app.may_connect(), input) != app,
    ensures
        text::is_ipv4(app.host_input),
        app.may_edit(),
        app.after_input(app.may_connect(), input).state is Connecting,
        !app.after_input(app.may_connect(), input).may_connect(),
{
}

/// An error is shown for four seconds from when the application enters it, however often the
/// window is drawn meanwhile, and is over when the window is drawn behind that.
pub proof fn law_errors_time_out(
    app: AppModel,
    msg: String,
    since: u128,
    drawings: Seq<(Seq<Vec<u8>>, u128)>,
    frames: Seq<Vec<u8>>,
    now: u128,
)
    requires
        forall|i: int|
            0 <= i < drawings.len() ==> (#[trigger] drawings[i]).1 < since + 4_000_000_000,
    ensures
        ({
            let meanwhile = app.entered(AppState::Error(msg), since).drawn_all(drawings);
            let next = meanwhile.before_drawing(frames, now);
            &&& meanwhile.state == AppState::Error(msg)
            &&& now < since + 4_000_000_000 ==> next.state == AppState::Error(msg)
                && next.state.shown() == Screen::PanelWithError(msg)
            &&& now >= since + 4_000_000_000 ==> next.state is Idle && next.state.shown() is Panel
                && next.error_since is None
        }),
{
    lemma_error_lasts(app, msg, since, drawings);
}

/// An error stays while the window is drawn within four seconds.
proof fn lemma_error_lasts(
    app: AppModel,
    msg: String,
    since: u128,
    drawings: Seq<(Seq<Vec<u8>>, u128)>,
)
    requires
        forall|i: int|
            0 <= i < drawings.len() ==> (#[trigger] drawings[i]).1 < since + 4_000_000_000,
    ensures
        app.entered(AppState::Error(msg), since).drawn_all(drawings).state == AppState::Error(msg),
        app.entered(AppState::Error(msg), since).drawn_all(drawings).error_since == Some(since),
    decreases drawings.len(),
{
    if drawings.len() > 0 {
        let before = drawings.drop_last();
        assert forall|i: int| 0 <= i < before.len() implies (#[trigger] before[i]).1 < since
            + 4_000_000_000 by {
            assert(before[i] == drawings[i]);
        }
        lemma_error_lasts(app, msg, since, before);
        assert(drawings.last() == drawings[drawings.len() - 1]);
    }
}

/// No state but an error ends by itself.
pub proof fn law_other_states_stay(app: AppModel, frames: Seq<Vec<u8>>, now: u128)
    requires
        !(app.state is Error),
    ensures
        app.drawn(frames, now).state == app.state,
{
}

/// The parts of an application belong together from its start on, whatever happens to it.
pub proof fn law_application_stays_in_order(
    app: AppModel,
    state: AppState,
    input: PanelInput,
    frames: Seq<Vec<u8>>,
    now: u128,
    local_ip: Seq<char>,
)
    requires
        app.wf(),
    ensures
        AppModel::start(local_ip).wf(),
        app.entered(state, now).wf(),
        app.after_input(app.may_connect(), input).wf(),
        app.polled(frames).wf(),
        app.drawn(frames, now).wf(),
{
}

/// An application starts idle, with its address, nothing typed, no error and no frame.
pub proof fn law_application_starts_idle(local_ip: Seq<char>)
    ensures
        ({
            let app = AppModel::start(local_ip);
            &&& app.state is Idle
            &&& app.local_ip == local_ip
            &&& app.host_input.len() == 0
            &&& app.error_since is None
            &&& app.framebuffer.len() == 0 && app.framebuffer_w == 0 && app.framebuffer_h == 0
            &&& !app.frame_dirty
        }),
{
    reveal_strlit("");
}

/// Entering a state changes the state, starts the clock of an error and stops every other, takes
/// the size of a connection's desktop, and touches nothing else.
pub proof fn law_entering_a_state_touches_no_more(app: AppModel, state: AppState, now: u128)
    ensures
        ({
            let next = app.entered(state, now);
            &&& next.state == state
            &&& next.error_since is Some <==> state is Error
            &&& next.error_since is Some ==> next.error_since->Some_0 == now
            &&& state matches AppState::Connected { width, height, .. } ==> next.framebuffer_w
                == width && next.framebuffer_h == height
            &&& !(state is Connected) ==> next.framebuffer_w == app.framebuffer_w
                && next.framebuffer_h == app.framebuffer_h
            &&& next.local_ip == app.local_ip
            &&& next.host_input == app.host_input
            &&& next.framebuffer == app.framebuffer
            &&& next.frame_dirty == app.frame_dirty
        }),
{
}

/// The panel begins a connection exactly where the user pressed Enter on leaving the address or
/// clicked the button, the address is an IPv4 address, and no connection exists or is being made;
/// and nothing else changes but that an error is over. Where the panel was drawn when the user
/// could connect or not, that is what counts.
pub proof fn law_panel_connects_where_it_may(app: AppModel, input: PanelInput, could: bool)
    ensures
        ({
            let next = app.after_input(app.may_connect(), input);
            let asked = input == (PanelInput::AddressField { lost_focus: true, enter: true })
                || input == (PanelInput::ConnectButton { clicked: true });
            let free = app.state is Idle || app.state is Listening || app.state is Error;
            &&& app.after_input(could, input).state is Connecting <==> app.state is Connecting || (
            asked && could)
            &&& !(asked && could) ==> app.after_input(could, input) == app
            &&& app.may_edit() <==> free
            &&& app.may_connect() <==> free && text::is_ipv4(app.host_input)
            &&& asked && free && text::is_ipv4(app.host_input) ==> next.state is Connecting
                && next.error_since is None
            &&& !(asked && free && text::is_ipv4(app.host_input)) ==> next == app
            &&& next.local_ip == app.local_ip && next.host_input == app.host_input
            &&& next.framebuffer == app.framebuffer && next.frame_dirty == app.frame_dirty
            &&& next.framebuffer_w == app.framebuffer_w && next.framebuffer_h == app.framebuffer_h
        }),
{
}

/// The last frame that arrived is the newest, waits to be uploaded, and touches nothing else; no
/// frame changes nothing.
pub proof fn law_last_frame_is_the_newest(app: AppModel, frames: Seq<Vec<u8>>, frame: Vec<u8>)
    ensures
        app.polled(Seq::empty()) == app,
        ({
            let next = app.polled(frames.push(frame));
            &&& next.framebuffer == frame@
            &&& next.frame_dirty
            &&& next.state == app.state && next.error_since == app.error_since
            &&& next.local_ip == app.local_ip && next.host_input == app.host_input
            &&& next.framebuffer_w == app.framebuffer_w && next.framebuffer_h == app.framebuffer_h
        }),
{
}

/// A frame that arrived is uploaded when the window is drawn, in every state, exactly where it
/// has bytes and as many as an image of the framebuffer's size in four bytes a pixel.
pub proof fn law_frames_of_the_size_are_uploaded(
    app: AppModel,
    frames: Seq<Vec<u8>>,
    frame: Vec<u8>,
    now: u128,
)
    ensures
        app.before_drawing(frames.push(frame), now).needs_upload() <==> frame@.len() > 0
            && frame@.len() == 4 * (app.framebuffer_w * app.framebuffer_h),
        !app.frame_dirty ==> !app.before_drawing(Seq::empty(), now).needs_upload(),
{
}

/// Drawing the window changes no more than that an error ends and the newest frame is taken.
pub proof fn law_drawing_touches_no_more(app: AppModel, frames: Seq<Vec<u8>>, now: u128)
    ensures
        ({
            let next = app.drawn(frames, now);
            &&& next.state == app.state || (app.state is Error && next.state is Idle)
            &&& next.local_ip == app.local_ip && next.host_input == app.host_input
            &&& next.framebuffer_w == app.framebuffer_w && next.framebuffer_h == app.framebuffer_h
            &&& frames.len() == 0 ==> next.framebuffer == app.framebuffer
            &&& next.frame_dirty ==> app.frame_dirty || frames.len() > 0
        }),
{
}

/// The window shows the remote desktop exactly while the application is connected, with its
/// peer and its size, the error exactly while there is one, in its own words, and the panel
/// alone in every other state.
pub proof fn law_window_shows_the_state(state: AppState)
    ensures
        match state.shown() {
            Screen::Fullscreen { peer_ip, width, height } => state == (AppState::Connected {
                peer_ip,
                width,
                height,
            }),
            Screen::PanelWithError(msg) => state == AppState::Error(msg),
            Screen::Panel => state is Idle || state is Listening || state is Connecting,
        },
{
}

/// The panel has a status line exactly while the application is idle, listens or connects, and
/// something turns exactly while it connects.
pub proof fn law_panel_tells_the_state(state: AppState, status: Option<Status>)
    requires
        call_ensures(AppState::status, (&state,), status),
    ensures
        status is Some <==> state is Idle || state is Listening || state is Connecting,
        status is Some ==> (status->Some_0.spinner <==> state is Connecting),
        state is Idle ==> status->Some_0.text@ == "● Listo"@,
        state is Listening ==> status->Some_0.text@ == "● Esperando conexión entrante"@,
        state is Connecting ==> status->Some_0.text@ == "Conectando..."@,
{
}

/// The overlay names the peer, and the width before the height.
pub proof fn law_overlay_names_peer_and_size(
    peer_ip: &str,
    width: u32,
    height: u32,
    lines: (String, String),
)
    requires
        call_ensures(overlay, (peer_ip, width, height), lines),
    ensures
        lines.0@ == "● "@ + peer_ip@,
        lines.1@ == text::decimal(width as nat) + ("x"@ + text::decimal(height as nat)),
{
    assert(lines.1@ =~= text::decimal(width as nat) + ("x"@ + text::decimal(height as nat)));
}

/// An address is taken exactly where it is four numbers up to 255 with a dot between each two.
pub proof fn law_addresses_are_validated(input: &str, valid: bool)
    requires
        call_ensures(RemotedeskApp::validate_ip, (input,), valid),
    ensures
        valid <==> exists|i: int, j: int, k: int| text::is_cut_by_dots(input@, i, j, k),
{
    text::law_addresses_are_four_numbers(input@);
}

} // verus!
