//! What the user interface shows, and what the user's choices mean. Levels are
//! thousandths of full scale.
use vstd::prelude::*;

use crate::audio::{device_names, virtual_mic_installed};
use crate::audio;
use crate::client::{ClientHandle, Mode};
use crate::client;
use crate::discovery::device_type;
use crate::discovery;
use crate::follow::FollowHandle;
use crate::follow;
use crate::platform::Platform;
use crate::server::{Decision, ServerHandle};
use crate::server;
use crate::settings::{device_name, Store};
use crate::settings;
use crate::text::{opt_copy, same_text};
use crate::text;
use crate::DEFAULT_PORT;

verus! {

// ---------------------------------------------------------------------------
// Devices
// ---------------------------------------------------------------------------

/// The sound devices of this machine.
#[derive(Debug)]
pub struct Devices {
    pub inputs: Vec<String>,
    pub outputs: Vec<String>,
    /// Whether the virtual loopback device is installed.
    pub virtual_mic_installed: bool,
}

/// Some output device is the virtual loopback device.
pub open spec fn any_virtual_mic(names: Seq<Seq<char>>, platform: Platform) -> bool {
    exists|i: int| 0 <= i < names.len() && audio::virtual_mic(#[trigger] names[i], platform)
}

/// The sound devices to show, from what the system lists.
pub fn list_devices(
    inputs: &Vec<Option<String>>,
    outputs: &Vec<Option<String>>,
    platform: Platform,
) -> (r: Devices)
    ensures
        text::text_views(r.inputs@) == audio::present(audio::name_views(inputs@)),
        text::text_views(r.outputs@) == audio::present(audio::name_views(outputs@)),
        r.virtual_mic_installed == any_virtual_mic(text::text_views(r.outputs@), platform),
{
    let outputs = device_names(outputs);
    let installed = virtual_mic_installed(&outputs, platform);
    proof {
        let views = text::text_views(outputs@);
        if installed {
            let i = choose|i: int|
                0 <= i < outputs@.len() && audio::virtual_mic((#[trigger] outputs@[i])@, platform);
            assert(audio::virtual_mic(views[i], platform));
        }
        if any_virtual_mic(views, platform) {
            let i = choose|i: int|
                0 <= i < views.len() && audio::virtual_mic(#[trigger] views[i], platform);
            assert(audio::virtual_mic(outputs@[i]@, platform));
        }
    }
    Devices { inputs: device_names(inputs), outputs, virtual_mic_installed: installed }
}

/// Where the virtual loopback device can be had.
pub open spec fn driver_page(platform: Platform) -> Seq<char> {
    if platform == Platform::Windows {
        "https://vb-audio.com/Cable/"@
    } else {
        "https://existential.audio/blackhole/"@
    }
}

/// Where the virtual loopback device can be had.
pub fn driver_url(platform: Platform) -> (r: &'static str)
    ensures
        r@ == driver_page(platform),
{
    match platform {
        Platform::Windows => "https://vb-audio.com/Cable/",
        _ => "https://existential.audio/blackhole/",
    }
}

/// This device's name and kind.
#[derive(Debug)]
pub struct DeviceInfo {
    pub name: String,
    pub device_type: String,
}

pub fn device_info(store: &Store, platform: Platform) -> (r: DeviceInfo)
    ensures
        r.name@ == store.settings@.device_name,
        r.device_type@ == discovery::type_word(platform),
{
    DeviceInfo { name: device_name(store), device_type: device_type(platform).to_string() }
}

/// The output device for auto-follow: the one that the user named, else the one
/// that would be played to.
pub fn follow_device(named: Option<String>, resolved: Option<String>) -> (r: Result<String, String>)
    ensures
        match r {
            Ok(d) => text::opt_view(named) == Some(d@) && d@.len() > 0 || (text::opt_view(named)
                is None || named->0@.len() == 0) && text::opt_view(resolved) == Some(d@),
            Err(e) => (text::opt_view(named) is None || named->0@.len() == 0) && resolved is None
                && e@ == "找不到可用的输出设备"@,
        },
{
    match named {
        Some(n) => {
            if !n.as_str().is_empty() {
                return Ok(n);
            }
        },
        None => {},
    }
    match resolved {
        Some(n) => Ok(n),
        None => Err("找不到可用的输出设备".to_string()),
    }
}

// ---------------------------------------------------------------------------
// The server
// ---------------------------------------------------------------------------

/// A request that the owner has to answer.
#[derive(Debug)]
pub struct PendingRequest {
    /// The name that the device gives itself, cleaned.
    pub name: String,
    pub addr: String,
    /// "stream" opens the microphone at once; "authorize" when it is needed.
    pub kind: String,
}

#[verifier::ext_equal]
pub struct PendingView {
    pub name: Seq<char>,
    pub addr: Seq<char>,
    pub kind: Seq<char>,
}

pub open spec fn pending_view(p: Option<PendingRequest>) -> Option<PendingView> {
    match p {
        Some(p) => Some(PendingView { name: p.name@, addr: p.addr@, kind: p.kind@ }),
        None => None,
    }
}

/// What the owner sees of a request.
pub open spec fn shown_request(w: Option<server::WaitingView>) -> Option<PendingView> {
    match w {
        Some(w) => Some(PendingView { name: w.name, addr: w.addr, kind: w.kind.word() }),
        None => None,
    }
}

/// The request that the owner has to answer.
pub fn pending_of(h: &ServerHandle) -> (r: Option<PendingRequest>)
    ensures
        pending_view(r) == shown_request(h@.pending()),
{
    match h.pending() {
        Some((name, addr, kind)) => Some(
            PendingRequest { name, addr, kind: kind.as_str().to_string() },
        ),
        None => None,
    }
}

/// What is shown of the server.
#[derive(Debug)]
pub struct ServerStatus {
    pub running: bool,
    pub port: u16,
    /// The chosen device, or the one that was used last.
    pub device: String,
    /// The rate of the last session; zero before the first.
    pub sample_rate: u32,
    /// The client that has the microphone; empty for none.
    pub stream_addr: String,
    pub level: u32,
    /// The peaks of the last blocks, and the count of all blocks.
    pub wave: Vec<u32>,
    pub wave_seq: u64,
    pub pending: Option<PendingRequest>,
    pub error: Option<String>,
}

#[verifier::ext_equal]
pub struct ServerStatusView {
    pub running: bool,
    pub port: u16,
    pub device: Seq<char>,
    pub sample_rate: u32,
    pub stream_addr: Seq<char>,
    pub level: u32,
    pub wave: Seq<u32>,
    pub wave_seq: u64,
    pub pending: Option<PendingView>,
    pub error: Option<Seq<char>>,
}

impl View for ServerStatus {
    type V = ServerStatusView;

    open spec fn view(&self) -> ServerStatusView {
        ServerStatusView {
            running: self.running,
            port: self.port,
            device: self.device@,
            sample_rate: self.sample_rate,
            stream_addr: self.stream_addr@,
            level: self.level,
            wave: self.wave@,
            wave_seq: self.wave_seq,
            pending: pending_view(self.pending),
            error: text::opt_view(self.error),
        }
    }
}

/// What is shown of a server that runs.
pub open spec fn running_status(v: server::ServerView) -> ServerStatusView {
    ServerStatusView {
        running: true,
        port: v.port,
        device: v.shown_device(),
        sample_rate: v.last_rate,
        stream_addr: v.client(),
        level: v.meter.level,
        wave: v.meter.wave,
        wave_seq: v.meter.seq,
        pending: shown_request(v.pending()),
        error: v.error,
    }
}

/// What is shown when no server runs: why it could not start, where that is so.
pub open spec fn idle_status(error: Option<Seq<char>>) -> ServerStatusView {
    ServerStatusView {
        running: false,
        port: DEFAULT_PORT,
        device: Seq::empty(),
        sample_rate: 0,
        stream_addr: Seq::empty(),
        level: 0,
        wave: Seq::empty(),
        wave_seq: 0,
        pending: None,
        error,
    }
}

/// What is shown of the server.
pub fn server_status(server: Option<&ServerHandle>, start_error: &Option<String>) -> (r:
    ServerStatus)
    ensures
        r@ == match server {
            Some(h) => running_status(h@),
            None => idle_status(text::opt_view(*start_error)),
        },
{
    match server {
        Some(h) => {
            let (wave, wave_seq) = h.wave();
            ServerStatus {
                running: true,
                port: h.port(),
                device: h.device(),
                sample_rate: h.sample_rate(),
                stream_addr: match h.stream_addr() {
                    Some(a) => a,
                    None => String::new(),
                },
                level: h.level(),
                wave,
                wave_seq,
                pending: pending_of(h),
                error: h.take_error(),
            }
        },
        None => {
            let r = ServerStatus {
                running: false,
                port: DEFAULT_PORT,
                device: String::new(),
                sample_rate: 0,
                stream_addr: String::new(),
                level: 0,
                wave: Vec::new(),
                wave_seq: 0,
                pending: None,
                error: opt_copy(start_error),
            };
            assert(r@ =~= idle_status(text::opt_view(*start_error)));
            r
        },
    }
}

/// What the owner's answer means: refuse, allow once, or allow from now on.
pub fn decision_of(allow: bool, remember: bool) -> (r: Decision)
    ensures
        r == (if !allow {
            Decision::Deny
        } else if remember {
            Decision::Always
        } else {
            Decision::Once
        }),
{
    if !allow {
        Decision::Deny
    } else if remember {
        Decision::Always
    } else {
        Decision::Once
    }
}

/// The server is to be started again: it ran when the app was last quit, and not
/// in client mode.
pub open spec fn restores(s: settings::SettingsView) -> bool {
    s.server_was_running && s.last_mode != Some("client"@)
}

/// Whether to start the server at the start of the app.
pub fn restore_server(store: &Store) -> (r: bool)
    ensures
        r == restores(store.settings@),
{
    let client = match &store.settings.last_mode {
        Some(m) => same_text(m.as_str(), "client"),
        None => false,
    };
    store.settings.server_was_running && !client
}

/// A new install does not start to listen by itself, and neither does an app
/// that was quit as a client.
pub proof fn law_no_surprise_server(s: settings::SettingsView)
    ensures
        !s.server_was_running ==> !restores(s),
        s.last_mode == Some("client"@) ==> !restores(s),
{
}

// ---------------------------------------------------------------------------
// Telling the owner of a request
// ---------------------------------------------------------------------------

/// A request as the watcher tells them apart: by name and kind.
pub open spec fn same_request(a: Option<PendingView>, b: Option<PendingView>) -> bool {
    match (a, b) {
        (Some(a), Some(b)) => a.name == b.name && a.kind == b.kind,
        (None, None) => true,
        _ => false,
    }
}

/// Whether the pending request is another one than it was: then the owner is
/// told, or no longer told.
pub fn pending_changed(last: &Option<PendingRequest>, now: &Option<PendingRequest>) -> (r: bool)
    ensures
        r == !same_request(pending_view(*last), pending_view(*now)),
{
    match (last, now) {
        (Some(a), Some(b)) => !(same_text(a.name.as_str(), b.name.as_str()) && same_text(
            a.kind.as_str(),
            b.kind.as_str(),
        )),
        (None, None) => false,
        _ => true,
    }
}

/// Whether to send a notification: the window tells by itself only where it is
/// both visible and in front.
pub fn should_notify(visible: bool, focused: bool) -> (r: bool)
    ensures
        r == !(visible && focused),
{
    !(visible && focused)
}

/// The title of a notification.
pub fn notification_title(name: &str) -> (r: String)
    ensures
        r@ == "「"@ + name@ + "」想使用这台设备的麦克风"@,
{
    "「".to_string().concat(name).concat("」想使用这台设备的麦克风")
}

/// The text of a notification: a request for the stream is urgent, one for an
/// authorization is not.
pub open spec fn notice(kind: Seq<char>) -> Seq<char> {
    if kind == "authorize"@ {
        "对方开启了自动跟随,请求预先授权;同意之前不会开麦,不急。点击菜单栏的 MicSync 图标处理。"@
    } else {
        "30 秒内未处理将自动拒绝。点击菜单栏的 MicSync 图标处理。"@
    }
}

/// The text of a notification.
pub fn notification_body(kind: &str) -> (r: &'static str)
    ensures
        r@ == notice(kind@),
{
    if same_text(kind, "authorize") {
        "对方开启了自动跟随,请求预先授权;同意之前不会开麦,不急。点击菜单栏的 MicSync 图标处理。"
    } else {
        "30 秒内未处理将自动拒绝。点击菜单栏的 MicSync 图标处理。"
    }
}

/// What the tray icon says when pointed at.
pub fn tray_tooltip(pending: &Option<PendingRequest>) -> (r: String)
    ensures
        r@ == match pending_view(*pending) {
            Some(p) => "MicSync — 「"@ + p.name + "」等待确认"@,
            None => "MicSync"@,
        },
{
    match pending {
        Some(p) => "MicSync — 「".to_string().concat(p.name.as_str()).concat("」等待确认"),
        None => "MicSync".to_string(),
    }
}

/// The tray menu's entry for a request.
pub fn tray_entry(name: &str) -> (r: String)
    ensures
        r@ == "处理「"@ + name@ + "」的请求…"@,
{
    "处理「".to_string().concat(name).concat("」的请求…")
}

// ---------------------------------------------------------------------------
// The client and auto-follow
// ---------------------------------------------------------------------------

/// What is shown of the client.
#[derive(Debug)]
pub struct ClientStatus {
    pub connected: bool,
    pub mode: String,
    pub addr: String,
    pub output_device: String,
    pub sample_rate: u32,
    pub buffer_ms: u32,
    pub level: u32,
    pub error: Option<String>,
}

#[verifier::ext_equal]
pub struct ClientStatusView {
    pub connected: bool,
    pub mode: Seq<char>,
    pub addr: Seq<char>,
    pub output_device: Seq<char>,
    pub sample_rate: u32,
    pub buffer_ms: int,
    pub level: u32,
    pub error: Option<Seq<char>>,
}

impl View for ClientStatus {
    type V = ClientStatusView;

    open spec fn view(&self) -> ClientStatusView {
        ClientStatusView {
            connected: self.connected,
            mode: self.mode@,
            addr: self.addr@,
            output_device: self.output_device@,
            sample_rate: self.sample_rate,
            buffer_ms: self.buffer_ms as int,
            level: self.level,
            error: text::opt_view(self.error),
        }
    }
}

/// What is shown of a client.
pub open spec fn client_shown(client: Option<client::ClientView>) -> ClientStatusView {
    match client {
        Some(v) => ClientStatusView {
            connected: !v.stopped,
            mode: v.mode.word(),
            addr: v.addr,
            output_device: v.output_device,
            sample_rate: v.src_rate,
            buffer_ms: if v.playout.rate == 0 {
                0
            } else {
                (v.playout.queue.len() as int * 1000) / (v.playout.rate as int)
            },
            level: v.level,
            error: v.error,
        },
        None => ClientStatusView {
            connected: false,
            mode: Mode::Ended.word(),
            addr: Seq::empty(),
            output_device: Seq::empty(),
            sample_rate: 0,
            buffer_ms: 0,
            level: 0,
            error: None,
        },
    }
}

/// A client by its state.
pub open spec fn client_view(h: Option<&ClientHandle>) -> Option<client::ClientView> {
    match h {
        Some(h) => Some(h@),
        None => None,
    }
}

/// What is shown of the client.
pub fn make_client_status(h: Option<&ClientHandle>) -> (r: ClientStatus)
    ensures
        r@ == client_shown(client_view(h)),
{
    match h {
        Some(h) => {
            ClientStatus {
                connected: h.is_connected(),
                mode: h.mode().as_str().to_string(),
                addr: h.addr(),
                output_device: h.output_device(),
                sample_rate: h.src_rate(),
                buffer_ms: h.buffer_ms(),
                level: h.level(),
                error: h.take_error(),
            }
        },
        None => {
            let r = ClientStatus {
                connected: false,
                mode: Mode::Ended.as_str().to_string(),
                addr: String::new(),
                output_device: String::new(),
                sample_rate: 0,
                buffer_ms: 0,
                level: 0,
                error: None,
            };
            assert(r@ =~= client_shown(None));
            r
        },
    }
}

/// What is shown of auto-follow.
#[derive(Debug)]
pub struct FollowStatus {
    pub running: bool,
    pub phase: String,
    /// Whether an application on this machine uses the virtual microphone.
    pub local_in_use: bool,
    pub addr: String,
    pub output_device: String,
    pub error: Option<String>,
    /// The claimed stream.
    pub client: ClientStatus,
}

#[verifier::ext_equal]
pub struct FollowStatusView {
    pub running: bool,
    pub phase: Seq<char>,
    pub local_in_use: bool,
    pub addr: Seq<char>,
    pub output_device: Seq<char>,
    pub error: Option<Seq<char>>,
    pub client: ClientStatusView,
}

impl View for FollowStatus {
    type V = FollowStatusView;

    open spec fn view(&self) -> FollowStatusView {
        FollowStatusView {
            running: self.running,
            phase: self.phase@,
            local_in_use: self.local_in_use,
            addr: self.addr@,
            output_device: self.output_device@,
            error: text::opt_view(self.error),
            client: self.client@,
        }
    }
}

/// What is shown of auto-follow and of the stream that it claimed.
pub open spec fn follow_shown(
    follow: Option<follow::FollowView>,
    client: Option<client::ClientView>,
) -> FollowStatusView {
    match follow {
        Some(v) => FollowStatusView {
            running: true,
            phase: v.phase.word(),
            local_in_use: v.local_in_use,
            addr: v.addr,
            output_device: v.output_device,
            error: v.error,
            client: client_shown(client),
        },
        None => FollowStatusView {
            running: false,
            phase: follow::Phase::Armed.word(),
            local_in_use: false,
            addr: Seq::empty(),
            output_device: Seq::empty(),
            error: None,
            client: client_shown(None),
        },
    }
}

/// Auto-follow by its state.
pub open spec fn follow_view(h: Option<&FollowHandle>) -> Option<follow::FollowView> {
    match h {
        Some(h) => Some(h@),
        None => None,
    }
}

/// What is shown of auto-follow.
pub fn follow_status(h: Option<&FollowHandle>, client: Option<&ClientHandle>) -> (r: FollowStatus)
    ensures
        r@ == follow_shown(follow_view(h), client_view(client)),
{
    match h {
        Some(h) => {
            FollowStatus {
                running: true,
                phase: h.phase().as_str().to_string(),
                local_in_use: h.local_in_use(),
                addr: h.addr(),
                output_device: h.output_device(),
                error: h.take_error(),
                client: make_client_status(client),
            }
        },
        None => {
            let r = FollowStatus {
                running: false,
                phase: follow::Phase::Armed.as_str().to_string(),
                local_in_use: false,
                addr: String::new(),
                output_device: String::new(),
                error: None,
                client: make_client_status(None),
            };
            assert(r@ =~= follow_shown(None, client_view(client)));
            r
        },
    }
}

// ---------------------------------------------------------------------------
// What is shown is what is so
// ---------------------------------------------------------------------------

/// The server comes back by itself exactly if it was listening when the app was
/// quit, and not in client mode.
pub proof fn law_server_comes_back(s: settings::SettingsView)
    ensures
        s.server_was_running && s.last_mode is None ==> restores(s),
        s.server_was_running && s.last_mode == Some("server"@) ==> restores(s),
        restores(s) <==> s.server_was_running && s.last_mode != Some("client"@),
{
    reveal_strlit("server");
    reveal_strlit("client");
    assert("server"@[0] == 's' && "client"@[0] == 'c');
}

/// What is shown of a server is its state: the port, the device, who has the
/// microphone, the level and the wave, the oldest request without an answer and
/// what there is to tell. Without a server nothing is shown but why.
pub proof fn law_server_is_shown_as_it_is(v: server::ServerView, error: Option<Seq<char>>)
    ensures
        ({
            let shown = running_status(v);
            &&& shown.running && shown.port == v.port && shown.sample_rate == v.last_rate
            &&& v.session matches Some(s) ==> shown.stream_addr == s.addr
            &&& v.session is None ==> shown.stream_addr.len() == 0
            &&& v.device_pref matches Some(d) ==> shown.device == d
            &&& v.device_pref is None && v.last_device.len() > 0 ==> shown.device == v.last_device
            &&& shown.level == v.meter.level && shown.wave == v.meter.wave && shown.wave_seq
                == v.meter.seq
            &&& shown.error == v.error
            &&& v.pending() is None <==> shown.pending is None
            &&& v.pending() matches Some(w) ==> {
                &&& shown.pending->0.name == w.name
                &&& shown.pending->0.addr == w.addr
                &&& w.kind == server::Kind::Stream ==> shown.pending->0.kind == "stream"@
                &&& w.kind == server::Kind::Authorize ==> shown.pending->0.kind == "authorize"@
            }
        }),
        ({
            let shown = idle_status(error);
            &&& !shown.running && shown.port == 47800 && shown.pending is None && shown.error
                == error
            &&& shown.level == 0 && shown.stream_addr.len() == 0 && shown.wave.len() == 0
            &&& shown.device.len() == 0 && shown.sample_rate == 0 && shown.wave_seq == 0
        }),
{
}

/// What is shown of a client is its state: whether the use goes on, its mode, how
/// much is buffered in milliseconds, and what there is to tell.
pub proof fn law_client_is_shown_as_it_is(v: client::ClientView)
    ensures
        ({
            let shown = client_shown(Some(v));
            &&& shown.connected <==> !v.stopped
            &&& shown.mode == v.mode.word()
            &&& shown.addr == v.addr && shown.output_device == v.output_device
            &&& shown.sample_rate == v.src_rate && shown.level == v.level && shown.error == v.error
            &&& v.playout.rate > 0 ==> shown.buffer_ms * v.playout.rate <= 1000
                * v.playout.queue.len() < (shown.buffer_ms + 1) * v.playout.rate
            &&& v.playout.rate == 0 ==> shown.buffer_ms == 0
        }),
        !client_shown(None).connected && client_shown(None).mode == "ended"@ && client_shown(
            None,
        ).error is None && client_shown(None).buffer_ms == 0,
        client_shown(None).addr.len() == 0 && client_shown(None).output_device.len() == 0
            && client_shown(None).sample_rate == 0 && client_shown(None).level == 0,
{
    if v.playout.rate > 0 {
        let n = 1000 * v.playout.queue.len() as int;
        let r = v.playout.rate as int;
        let q = n / r;
        assert(q * r <= n < (q + 1) * r) by (nonlinear_arith)
            requires
                q == n / r,
                r > 0,
        ;
        assert(client_shown(Some(v)).buffer_ms == q);
    }
}

/// What is shown of auto-follow is its state, and that of the stream it claimed.
pub proof fn law_following_is_shown_as_it_is(
    v: follow::FollowView,
    client: Option<client::ClientView>,
)
    ensures
        ({
            let shown = follow_shown(Some(v), client);
            &&& shown.running && shown.phase == v.phase.word() && shown.local_in_use
                == v.local_in_use
            &&& shown.addr == v.addr && shown.output_device == v.output_device && shown.error
                == v.error
            &&& shown.client == client_shown(client)
        }),
        ({
            let shown = follow_shown(None, client);
            &&& !shown.running && shown.phase == "armed"@ && !shown.local_in_use
            &&& shown.error is None && !shown.client.connected
            &&& shown.addr.len() == 0 && shown.output_device.len() == 0
            &&& shown.client == client_shown(None)
        }),
{
}

/// The owner is told of a request once: again only when the device or what it asks
/// for is another. A request for the stream is urgent, one for an authorization is
/// not.
pub proof fn law_owner_is_told_of_each_request(a: PendingView, b: PendingView)
    ensures
        same_request(Some(a), Some(b)) <==> a.name == b.name && a.kind == b.kind,
        !same_request(Some(a), None) && !same_request(None, Some(a)),
        same_request(None, None),
        notice("stream"@) != notice("authorize"@),
        forall|kind: Seq<char>|
            kind != "authorize"@ ==> #[trigger] notice(kind) == notice("stream"@),
        driver_page(Platform::Windows) != driver_page(Platform::MacOs),
{
    reveal_strlit("stream");
    reveal_strlit("authorize");
    assert("stream"@.len() != "authorize"@.len());
    reveal_strlit("对方开启了自动跟随,请求预先授权;同意之前不会开麦,不急。点击菜单栏的 MicSync 图标处理。");
    reveal_strlit("30 秒内未处理将自动拒绝。点击菜单栏的 MicSync 图标处理。");
    assert(notice("stream"@)[0] == '3');
    assert(notice("authorize"@)[0] == '对');
    reveal_strlit("https://vb-audio.com/Cable/");
    reveal_strlit("https://existential.audio/blackhole/");
    assert(driver_page(Platform::Windows).len() != driver_page(Platform::MacOs).len());
}

/// The words that stand for modes, phases and kinds of requests.
pub proof fn law_states_have_their_words()
    ensures
        forall|m: Mode|
            #[trigger] m.word() == (match m {
                Mode::Connecting => "connecting"@,
                Mode::Waiting => "waiting"@,
                Mode::Streaming => "streaming"@,
                Mode::Ended => "ended"@,
                Mode::Denied => "denied"@,
            }),
        forall|p: follow::Phase|
            #[trigger] p.word() == (match p {
                follow::Phase::Armed => "armed"@,
                follow::Phase::Active => "active"@,
                follow::Phase::Suppressed => "suppressed"@,
                follow::Phase::DeviceMissing => "device_missing"@,
                follow::Phase::Unsupported => "unsupported"@,
                follow::Phase::Authorizing => "authorizing"@,
                follow::Phase::AuthDenied => "auth_denied"@,
            }),
        forall|m: Mode, n: Mode| #[trigger] m.number() == #[trigger] n.number() ==> m == n,
        forall|p: follow::Phase, q: follow::Phase|
            #[trigger] p.number() == #[trigger] q.number() ==> p == q,
{
}

/// What is known of what is shown is all of it, and the loopback device counts as
/// installed as soon as one output device is one.
pub proof fn law_status_is_known_whole(
    s: ServerStatus,
    c: ClientStatus,
    f: FollowStatus,
    p: PendingRequest,
    names: Seq<Seq<char>>,
    name: Seq<char>,
    platform: Platform,
)
    ensures
        s@.running == s.running && s@.port == s.port && s@.device == s.device@ && s@.sample_rate
            == s.sample_rate && s@.stream_addr == s.stream_addr@ && s@.level == s.level && s@.wave
            == s.wave@ && s@.wave_seq == s.wave_seq,
        s.pending is None <==> s@.pending is None,
        s.error matches Some(e) ==> s@.error == Some(e@),
        s.error is None <==> s@.error is None,
        pending_view(Some(p)) == Some(
            PendingView { name: p.name@, addr: p.addr@, kind: p.kind@ },
        ),
        c@.connected == c.connected && c@.mode == c.mode@ && c@.addr == c.addr@
            && c@.output_device == c.output_device@ && c@.sample_rate == c.sample_rate
            && c@.buffer_ms == c.buffer_ms && c@.level == c.level,
        c.error matches Some(e) ==> c@.error == Some(e@),
        c.error is None <==> c@.error is None,
        f@.running == f.running && f@.phase == f.phase@ && f@.local_in_use == f.local_in_use
            && f@.addr == f.addr@ && f@.output_device == f.output_device@ && f@.client == f.client@,
        f.error matches Some(e) ==> f@.error == Some(e@),
        f.error is None <==> f@.error is None,
        audio::virtual_mic(name, platform) ==> any_virtual_mic(names.push(name), platform),
        any_virtual_mic(names, platform) ==> exists|i: int|
            0 <= i < names.len() && audio::virtual_mic(#[trigger] names[i], platform),
{
    assert(names.push(name)[names.len() as int] == name);
}

} // verus!
