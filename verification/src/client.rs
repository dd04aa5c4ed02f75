//! The client: finding out whom it talks to, claiming the stream, and what each
//! way for a claim to go leads to.
use vstd::prelude::*;

use crate::audio::Playout;
use crate::audio;
use crate::http::{
    consent_request, plain_request, read_status_code, split_http_response, token_from_head,
    utf8_text_lossy,
};
use crate::http;
use crate::json::{read_json, text_member, Leaf};
use crate::json;
use crate::settings::{remember_server, token_for_server, SettingsView, Store};
use crate::settings;
use crate::text::{chars_of, cut_once, decimal_text, opt_copy, same_text, string_of, text_contains};
use crate::text;
use crate::wire::{read_header, read_le32, FrameHead};
use crate::wire::{END_PREEMPTED, END_SERVER_CLOSING, HEADER_LEN};
use crate::wire;
use crate::DEFAULT_PORT;

verus! {

/// The pause before claiming again after a stream broke off, in milliseconds.
pub const RETRY_LOST_MS: u64 = 800;

/// The pause before claiming again when the server cannot be reached.
pub const RETRY_OFFLINE_MS: u64 = 1500;

/// While it waits for an authorization, a client gives a sign of life this often.
pub const PREAUTH_HEARTBEAT_MS: u64 = 2000;

/// The lowest sample rate that a client accepts.
pub const MIN_RATE: u32 = 8000;

/// The highest sample rate that a client accepts.
pub const MAX_RATE: u32 = 192000;

// ---------------------------------------------------------------------------
// Modes
// ---------------------------------------------------------------------------

/// What a client is doing.
#[derive(Debug, Clone, Copy, PartialEq, Eq, Structural)]
pub enum Mode {
    /// Connecting, or connecting again.
    Connecting,
    /// Waiting for the server's owner to agree.
    Waiting,
    /// Receiving the stream.
    Streaming,
    /// Over: taken over, or the server stopped.
    Ended,
    /// Over: the owner did not agree.
    Denied,
}

impl Mode {
    /// The number of a mode.
    pub open spec fn number(self) -> u8 {
        match self {
            Mode::Connecting => 0,
            Mode::Waiting => 1,
            Mode::Streaming => 2,
            Mode::Ended => 3,
            Mode::Denied => 4,
        }
    }

    /// The number of a mode.
    pub fn to_u8(self) -> (r: u8)
        ensures
            r == self.number(),
    {
        match self {
            Mode::Connecting => 0,
            Mode::Waiting => 1,
            Mode::Streaming => 2,
            Mode::Ended => 3,
            Mode::Denied => 4,
        }
    }

    /// The mode with a number; any other number stands for connecting.
    pub fn from_u8(v: u8) -> (r: Mode)
        ensures
            v <= 4 ==> r.number() == v,
            v > 4 ==> r == Mode::Connecting,
    {
        match v {
            1 => Mode::Waiting,
            2 => Mode::Streaming,
            3 => Mode::Ended,
            4 => Mode::Denied,
            _ => Mode::Connecting,
        }
    }

    /// The word for a mode.
    pub open spec fn word(self) -> Seq<char> {
        match self {
            Mode::Connecting => "connecting"@,
            Mode::Waiting => "waiting"@,
            Mode::Streaming => "streaming"@,
            Mode::Ended => "ended"@,
            Mode::Denied => "denied"@,
        }
    }

    /// The word for a mode.
    pub fn as_str(&self) -> (r: &'static str)
        ensures
            r@ == self.word(),
    {
        match self {
            Mode::Connecting => "connecting",
            Mode::Waiting => "waiting",
            Mode::Streaming => "streaming",
            Mode::Ended => "ended",
            Mode::Denied => "denied",
        }
    }
}

// ---------------------------------------------------------------------------
// Whom the client talks to
// ---------------------------------------------------------------------------

/// An address with its port: where none is given, the default port.
pub open spec fn with_port(addr: Seq<char>) -> Seq<char> {
    if addr.contains(':') {
        addr
    } else {
        addr + ":"@ + text::decimal(DEFAULT_PORT as nat)
    }
}

/// Completes an address that leaves out the port.
pub fn full_addr(addr: &str) -> (r: String)
    ensures
        r@ == with_port(addr@),
{
    let has_port = text_contains(addr, ":");
    proof {
        reveal_strlit(":");
        if addr@.contains(':') {
            let i = choose|i: int| 0 <= i < addr@.len() && addr@[i] == ':';
            assert(addr@.subrange(i, i + 1) =~= ":"@);
            assert(text::occurs_at(addr@, ":"@, i));
        }
        if text::contains(addr@, ":"@) {
            let i = choose|i: int| text::occurs_at(addr@, ":"@, i);
            assert(addr@.subrange(i, i + 1)[0] == ':');
            assert(addr@[i] == ':');
        }
    }
    if has_port {
        addr.to_string()
    } else {
        let port = decimal_text(DEFAULT_PORT as u64);
        addr.to_string().concat(":").concat(port.as_str())
    }
}

/// The public identity of a server.
pub struct ServerIdent {
    /// Its public id; empty for an old server, which cannot be remembered.
    pub id: String,
    /// Its name.
    pub name: String,
}

/// The text of a member, or another text.
pub open spec fn text_or(o: json::Object, key: Seq<char>, other: Seq<char>) -> Seq<char> {
    match json::text_at(o, key) {
        Some(s) => s,
        None => other,
    }
}

/// The identity in a health document, or what is wrong with it. An old server
/// gives neither id nor name.
pub open spec fn ident_in(o: json::Object) -> Result<(Seq<char>, Seq<char>), Seq<char>> {
    if json::text_at(o, "app"@) != Some("micsync"@) {
        Err("对方不是 MicSync 服务端"@)
    } else {
        Ok((text_or(o, "device_id"@, ""@), text_or(o, "alias"@, "MicSync"@)))
    }
}

/// The identity in a health response, or what is wrong with it.
pub open spec fn ident_of(resp: Seq<char>) -> Result<(Seq<char>, Seq<char>), Seq<char>> {
    match http::response_parts(resp) {
        Err(e) => Err(e),
        Ok((code, body)) => if code != 200 {
            Err("服务端返回 HTTP "@ + text::decimal(code as nat))
        } else {
            match json::json_object(vstd::utf8::encode_utf8(body)) {
                None => Err("响应不是有效 JSON,对方可能不是 MicSync 服务端"@),
                Some(o) => ident_in(o),
            }
        },
    }
}

pub open spec fn ident_result(r: Result<ServerIdent, String>) -> Result<
    (Seq<char>, Seq<char>),
    Seq<char>,
> {
    match r {
        Ok(s) => Ok((s.id@, s.name@)),
        Err(e) => Err(e@),
    }
}

/// Reads a member that is a text, with another text in its place where it is
/// missing.
pub fn text_member_or(list: &Vec<(String, Leaf)>, key: &str, other: &str) -> (r: String)
    ensures
        r@ == text_or(json::object_of(json::members_view(list@)), key@, other@),
{
    match text_member(list, key) {
        Some(s) => s,
        None => other.to_string(),
    }
}

/// Reads a server's identity out of the members of its health document.
pub fn identify(list: &Vec<(String, Leaf)>) -> (r: Result<ServerIdent, String>)
    ensures
        ident_result(r) == ident_in(json::object_of(json::members_view(list@))),
{
    let ours = match text_member(list, "app") {
        Some(app) => same_text(app.as_str(), "micsync"),
        None => false,
    };
    if !ours {
        return Err("对方不是 MicSync 服务端".to_string());
    }
    Ok(
        ServerIdent {
            id: text_member_or(list, "device_id", ""),
            name: text_member_or(list, "alias", "MicSync"),
        },
    )
}

/// The request for a server's health.
pub fn health_request(host: &str) -> (r: String)
    ensures
        r@ == http::head_text(http::plain_request_lines("/health"@, host@)),
{
    plain_request("/health", host)
}

/// Reads a server's identity out of its answer to the health request.
pub fn judge_health(resp: &str) -> (r: Result<ServerIdent, String>)
    ensures
        ident_result(r) == ident_of(resp@),
{
    match split_http_response(resp) {
        Err(e) => Err(e),
        Ok((code, body)) => {
            if code != 200 {
                let number = decimal_text(code as u64);
                return Err("服务端返回 HTTP ".to_string().concat(number.as_str()));
            }
            match read_json(body.as_bytes()) {
                None => Err(
                    "响应不是有效 JSON,对方可能不是 MicSync 服务端".to_string(),
                ),
                Some(list) => identify(&list),
            }
        },
    }
}

// ---------------------------------------------------------------------------
// Opening the stream
// ---------------------------------------------------------------------------

/// Why a stream could not be opened.
#[derive(Debug)]
pub enum OpenErr {
    /// The owner did not agree: final, never tried again without being told to.
    Denied(String),
    /// The network or the microphone failed: tried again.
    Retry(String),
}

pub enum OpenErrView {
    Denied(Seq<char>),
    Retry(Seq<char>),
}

impl View for OpenErr {
    type V = OpenErrView;

    open spec fn view(&self) -> OpenErrView {
        match *self {
            OpenErr::Denied(m) => OpenErrView::Denied(m@),
            OpenErr::Retry(m) => OpenErrView::Retry(m@),
        }
    }
}

/// The request for the stream.
pub fn stream_request(host: &str, name: &str, token: &str) -> (r: String)
    ensures
        r@ == http::head_text(http::request_lines("/stream"@, host@, name@, token@)),
{
    consent_request("/stream", host, name, token)
}

/// The answer's head went on for too long.
pub fn head_too_long() -> (r: OpenErr)
    ensures
        r@ == OpenErrView::Retry("串流响应头过长"@),
{
    OpenErr::Retry("串流响应头过长".to_string())
}

/// The connection ended inside the answer's head.
pub fn head_cut_short() -> (r: OpenErr)
    ensures
        r@ == OpenErrView::Retry("串流握手被中断"@),
{
    OpenErr::Retry("串流握手被中断".to_string())
}

/// What the head of an answer to the stream request says.
pub enum StreamHead {
    /// The stream follows; the server may have issued a token.
    Open(Option<String>),
    /// Refused with a status code; the reason follows.
    Refused(u16),
    /// No HTTP head.
    Malformed(OpenErr),
}

pub enum StreamHeadView {
    Open(Option<Seq<char>>),
    Refused(u16),
    Malformed(OpenErrView),
}

impl View for StreamHead {
    type V = StreamHeadView;

    open spec fn view(&self) -> StreamHeadView {
        match *self {
            StreamHead::Open(token) => StreamHeadView::Open(text::opt_view(token)),
            StreamHead::Refused(code) => StreamHeadView::Refused(code),
            StreamHead::Malformed(e) => StreamHeadView::Malformed(e@),
        }
    }
}

/// What a head says: only status 200 opens the stream.
pub open spec fn stream_head(head: Seq<char>) -> StreamHeadView {
    match http::status_code(head) {
        None => StreamHeadView::Malformed(OpenErrView::Retry("串流响应状态行异常"@)),
        Some(code) => if code == 200 {
            StreamHeadView::Open(http::head_token(head))
        } else {
            StreamHeadView::Refused(code)
        },
    }
}

/// Reads the head of the answer to the stream request.
pub fn judge_stream_head(head: &str) -> (r: StreamHead)
    ensures
        r@ == stream_head(head@),
{
    let cs = chars_of(head);
    match read_status_code(cs.as_slice()) {
        None => StreamHead::Malformed(
            OpenErr::Retry("串流响应状态行异常".to_string()),
        ),
        Some(code) => {
            if code == 200 {
                StreamHead::Open(token_from_head(head))
            } else {
                StreamHead::Refused(code)
            }
        },
    }
}

/// The message in the body of an answer, if the body is a JSON object with one.
pub open spec fn message_in(body: Seq<char>) -> Option<Seq<char>> {
    match json::json_object(vstd::utf8::encode_utf8(body)) {
        Some(o) => json::text_at(o, "message"@),
        None => None,
    }
}

/// Reads the message in the body of an answer.
pub fn read_message(body: &str) -> (r: Option<String>)
    ensures
        text::opt_view(r) == message_in(body@),
{
    match read_json(body.as_bytes()) {
        Some(list) => text_member(&list, "message"),
        None => None,
    }
}

/// A message, or the bare status code where there is none.
pub open spec fn message_or_code(message: Option<Seq<char>>, code: u16) -> Seq<char> {
    match message {
        Some(m) => m,
        None => "HTTP "@ + text::decimal(code as nat),
    }
}

fn message_text(message: Option<String>, code: u16) -> (r: String)
    ensures
        r@ == message_or_code(text::opt_view(message), code),
{
    match message {
        Some(m) => m,
        None => {
            let number = decimal_text(code as u64);
            "HTTP ".to_string().concat(number.as_str())
        },
    }
}

/// What a refusal means: status 403 is a person's decision and final, any other
/// is a failure that may pass.
pub open spec fn refusal(code: u16, message: Option<Seq<char>>) -> OpenErrView {
    if code == 403 {
        OpenErrView::Denied(message_or_code(message, code))
    } else {
        OpenErrView::Retry("服务端拒绝串流: "@ + message_or_code(message, code))
    }
}

/// Judges a refusal by its status code and the message that came with it.
pub fn judge_refusal(code: u16, message: Option<String>) -> (r: OpenErr)
    ensures
        r@ == refusal(code, text::opt_view(message)),
{
    let msg = message_text(message, code);
    if code == 403 {
        OpenErr::Denied(msg)
    } else {
        OpenErr::Retry("服务端拒绝串流: ".to_string().concat(msg.as_str()))
    }
}

/// Judges a refusal by its status code and its body.
pub fn judge_refusal_body(code: u16, body: &str) -> (r: OpenErr)
    ensures
        r@ == refusal(code, message_in(body@)),
{
    judge_refusal(code, read_message(body))
}

/// The sample rate that a stream header announces, or what is wrong with it.
pub open spec fn announced_rate(header: Seq<u8>) -> Result<u32, OpenErrView> {
    match wire::header_rate(header) {
        None => Err(OpenErrView::Retry("对方不是 MicSync 服务端(协议头不匹配)"@)),
        Some(rate) => if MIN_RATE <= rate <= MAX_RATE {
            Ok(rate)
        } else {
            Err(OpenErrView::Retry("服务端采样率异常: "@ + text::decimal(rate as nat)))
        },
    }
}

/// Reads the header of a stream.
pub fn judge_stream_header(header: &[u8]) -> (r: Result<u32, OpenErr>)
    requires
        header@.len() >= HEADER_LEN,
    ensures
        match r {
            Ok(rate) => announced_rate(header@) == Ok::<u32, OpenErrView>(rate),
            Err(e) => announced_rate(header@) == Err::<u32, OpenErrView>(e@),
        },
{
    match read_header(header) {
        None => Err(
            OpenErr::Retry("对方不是 MicSync 服务端(协议头不匹配)".to_string()),
        ),
        Some(rate) => {
            if MIN_RATE <= rate && rate <= MAX_RATE {
                Ok(rate)
            } else {
                let number = decimal_text(rate as u64);
                Err(OpenErr::Retry("服务端采样率异常: ".to_string().concat(number.as_str())))
            }
        },
    }
}

// ---------------------------------------------------------------------------
// Asking for consent beforehand
// ---------------------------------------------------------------------------

/// The outcome of asking for consent beforehand.
#[derive(Debug)]
pub enum Preauth {
    /// The owner agreed, now or earlier.
    Granted,
    /// The owner did not agree: final.
    Denied(String),
    /// An old server that cannot be asked beforehand.
    Unsupported,
}

pub enum PreauthView {
    Granted,
    Denied(Seq<char>),
    Unsupported,
}

impl View for Preauth {
    type V = PreauthView;

    open spec fn view(&self) -> PreauthView {
        match *self {
            Preauth::Granted => PreauthView::Granted,
            Preauth::Denied(m) => PreauthView::Denied(m@),
            Preauth::Unsupported => PreauthView::Unsupported,
        }
    }
}

/// The request for consent beforehand.
pub fn authorize_request(host: &str, name: &str, token: &str) -> (r: String)
    ensures
        r@ == http::head_text(http::request_lines("/authorize"@, host@, name@, token@)),
{
    consent_request("/authorize", host, name, token)
}

/// Whether the next sign of life is due, by the time since the last one.
pub fn heartbeat_due(since_last_ms: u64) -> (r: bool)
    ensures
        r == (since_last_ms >= PREAUTH_HEARTBEAT_MS),
{
    since_last_ms >= PREAUTH_HEARTBEAT_MS
}

/// What an answer to the request means, by its status code and message.
pub open spec fn preauth_outcome(code: u16, message: Option<Seq<char>>) -> Result<
    PreauthView,
    Seq<char>,
> {
    if code == 200 {
        Ok(PreauthView::Granted)
    } else if code == 403 {
        Ok(
            PreauthView::Denied(
                match message {
                    Some(m) => m,
                    None => "对方拒绝了麦克风授权请求"@,
                },
            ),
        )
    } else if code == 404 {
        Ok(PreauthView::Unsupported)
    } else {
        Err("服务端拒绝授权请求: "@ + message_or_code(message, code))
    }
}

pub open spec fn preauth_result(r: Result<Preauth, String>) -> Result<PreauthView, Seq<char>> {
    match r {
        Ok(p) => Ok(p@),
        Err(e) => Err(e@),
    }
}

/// Judges an answer to the request by its status code and message.
pub fn judge_preauth(code: u16, message: Option<String>) -> (r: Result<Preauth, String>)
    ensures
        preauth_result(r) == preauth_outcome(code, text::opt_view(message)),
{
    if code == 200 {
        Ok(Preauth::Granted)
    } else if code == 403 {
        Ok(
            Preauth::Denied(
                match message {
                    Some(m) => m,
                    None => "对方拒绝了麦克风授权请求".to_string(),
                },
            ),
        )
    } else if code == 404 {
        Ok(Preauth::Unsupported)
    } else {
        let msg = message_text(message, code);
        Err("服务端拒绝授权请求: ".to_string().concat(msg.as_str()))
    }
}

/// What an answer as a text means.
pub open spec fn preauth_reply(resp: Seq<char>) -> Result<PreauthView, Seq<char>> {
    match http::response_parts(resp) {
        Err(e) => Err(e),
        Ok((code, body)) => preauth_outcome(code, message_in(body)),
    }
}

/// The token that an answer issues: in the head of one that grants.
pub open spec fn preauth_token(resp: Seq<char>) -> Option<Seq<char>> {
    match http::response_parts(resp) {
        Ok((code, _)) => if code == 200 {
            match text::split_once(resp, http::blank()) {
                Some((head, _)) => http::head_token(head),
                None => None,
            }
        } else {
            None
        },
        Err(_) => None,
    }
}

/// The settings after an answer: a token that it issues is remembered under the
/// server's id.
pub open spec fn after_token(
    s: SettingsView,
    id: Seq<char>,
    name: Seq<char>,
    token: Option<Seq<char>>,
) -> SettingsView {
    match token {
        Some(t) => SettingsView {
            known_servers: settings::remembered(s.known_servers, id, t, name),
            ..s
        },
        None => s,
    }
}

/// Takes the answer of a server to the request, as text.
pub fn take_preauth_text(store: &mut Store, server: &ServerIdent, resp: &str) -> (r: Result<
    Preauth,
    String,
>)
    ensures
        preauth_result(r) == preauth_reply(resp@),
        final(store).settings@ == after_token(
            old(store).settings@,
            server.id@,
            server.name@,
            preauth_token(resp@),
        ),
        final(store).unsaved == (old(store).unsaved || (server.id@.len() > 0 && preauth_token(
            resp@,
        ) is Some)),
{
    match split_http_response(resp) {
        Err(e) => Err(e),
        Ok((code, body)) => {
            if code == 200 {
                let cs = chars_of(resp);
                let sep: [char; 4] = ['\r', '\n', '\r', '\n'];
                assert(sep@ =~= http::blank());
                match cut_once(cs.as_slice(), &sep) {
                    Some((head, _)) => {
                        let head_text = string_of(head);
                        match token_from_head(head_text.as_str()) {
                            Some(t) => {
                                remember_server(
                                    store,
                                    server.id.as_str(),
                                    t.as_str(),
                                    server.name.as_str(),
                                );
                            },
                            None => {},
                        }
                    },
                    None => {},
                }
            }
            judge_preauth(code, read_message(body))
        },
    }
}

/// Takes the answer of a server to the request, as the bytes that came.
pub fn take_preauth(store: &mut Store, server: &ServerIdent, raw: &[u8]) -> (r: Result<
    Preauth,
    String,
>)
    ensures
        preauth_result(r) == preauth_reply(http::utf8_lossy(raw@)),
        final(store).settings@ == after_token(
            old(store).settings@,
            server.id@,
            server.name@,
            preauth_token(http::utf8_lossy(raw@)),
        ),
        final(store).unsaved == (old(store).unsaved || (server.id@.len() > 0 && preauth_token(
            http::utf8_lossy(raw@),
        ) is Some)),
{
    let resp = utf8_text_lossy(raw);
    take_preauth_text(store, server, resp.as_str())
}

// ---------------------------------------------------------------------------
// The claim
// ---------------------------------------------------------------------------

/// How a stream came to its end.
#[derive(Debug, Clone, Copy, PartialEq, Eq, Structural)]
pub enum StreamEnd {
    /// The server said so, with a reason.
    Graceful(u32),
    /// The connection broke.
    Lost,
    /// The user stopped it.
    Stopped,
}

/// What to do next.
#[derive(Debug, Clone, Copy, PartialEq, Eq, Structural)]
pub enum ClaimTodo {
    /// Pause for so many milliseconds, then claim again unless stopped.
    RetryAfter(u64),
    /// Leave it.
    End,
}

/// What there is to read behind the head of a frame.
#[derive(Debug, Clone, Copy, PartialEq, Eq, Structural)]
pub enum FrameTodo {
    /// The reason for the end.
    Reason,
    /// So many samples.
    Samples(u32),
    /// Nothing: the frame is impossible and the stream is given up.
    GiveUp,
}

/// The state of a client.
#[verifier::ext_equal]
pub struct ClientView {
    pub addr: Seq<char>,
    pub output_device: Seq<char>,
    pub server_id: Seq<char>,
    pub server_name: Seq<char>,
    pub stopped: bool,
    pub mode: Mode,
    pub src_rate: u32,
    pub level: u32,
    pub preempted: bool,
    pub error: Option<Seq<char>>,
    pub playout: audio::PlayoutView,
}

impl ClientView {
    /// The state while a claim is made: without a token the owner has to agree.
    pub open spec fn claiming(self, token: Seq<char>) -> ClientView {
        if token.len() == 0 {
            ClientView {
                mode: Mode::Waiting,
                error: Some("等待「"@ + self.server_name + "」确认授权…"@),
                ..self
            }
        } else {
            self
        }
    }

    /// The stream is open.
    pub open spec fn opened(self, rate: u32) -> ClientView {
        ClientView { mode: Mode::Streaming, src_rate: rate, error: None, ..self }
    }

    /// The owner did not agree.
    pub open spec fn denied(self, message: Seq<char>) -> ClientView {
        ClientView { mode: Mode::Denied, error: Some(message), stopped: true, ..self }
    }

    /// The server could not be reached or could not open its microphone.
    pub open spec fn unreachable(self, message: Seq<char>) -> ClientView {
        ClientView {
            mode: Mode::Connecting,
            error: Some("服务端不可达,自动重试中: "@ + message),
            ..self
        }
    }

    /// The server ended the stream for a reason.
    pub open spec fn ended(self, reason: u32) -> ClientView {
        ClientView {
            mode: Mode::Ended,
            error: Some(
                if reason == END_PREEMPTED {
                    "麦克风已被其他设备接管,本机已停止使用"@
                } else {
                    "服务端已停止共享"@
                },
            ),
            preempted: self.preempted || reason == END_PREEMPTED,
            stopped: true,
            ..self
        }
    }

    /// The output device is there.
    pub open spec fn with_output(self, name: Seq<char>, rate: u32) -> ClientView {
        ClientView {
            output_device: name,
            playout: (audio::PlayoutView { rate, ..self.playout }).received(Seq::empty()),
            ..self
        }
    }

    /// The playing failed.
    pub open spec fn unplayed(self, message: Seq<char>) -> ClientView {
        ClientView { error: Some("播放流错误: "@ + message), ..self }
    }

    /// The head of a frame arrived; an impossible one is told to the user.
    pub open spec fn framed(self, head: FrameHead) -> ClientView {
        if head == FrameHead::Oversized {
            ClientView { error: Some("收到异常数据帧,本轮串流已断开"@), ..self }
        } else {
            self
        }
    }

    /// The stream broke off.
    pub open spec fn lost(self) -> ClientView {
        ClientView { mode: Mode::Connecting, error: Some("连接中断,自动重连中"@), ..self }
    }
}

/// A client in use.
pub struct ClientHandle {
    /// The server's address.
    addr: String,
    /// The device that is played to.
    output_device: String,
    server: ServerIdent,
    stop: bool,
    mode: Mode,
    src_rate: u32,
    level: u32,
    preempted: bool,
    error: Option<String>,
    playout: Playout,
}

impl View for ClientHandle {
    type V = ClientView;

    closed spec fn view(&self) -> ClientView {
        ClientView {
            addr: self.addr@,
            output_device: self.output_device@,
            server_id: self.server.id@,
            server_name: self.server.name@,
            stopped: self.stop,
            mode: self.mode,
            src_rate: self.src_rate,
            level: self.level,
            preempted: self.preempted,
            error: text::opt_view(self.error),
            playout: self.playout@,
        }
    }
}

impl ClientHandle {
    /// The server's address.
    pub fn addr(&self) -> (r: String)
        ensures
            r@ == self@.addr,
    {
        self.addr.clone()
    }

    /// The device that is played to.
    pub fn output_device(&self) -> (r: String)
        ensures
            r@ == self@.output_device,
    {
        self.output_device.clone()
    }

    /// A client that is about to claim the microphone of a server.
    pub fn new(addr: String, server: ServerIdent) -> (r: ClientHandle)
        ensures
            r@.addr == addr@,
            r@.output_device == ""@,
            r@.server_id == server.id@,
            r@.server_name == server.name@,
            !r@.stopped,
            r@.mode == Mode::Connecting,
            r@.src_rate == 0,
            r@.level == 0,
            !r@.preempted,
            r@.error is None,
            r@.playout == (audio::PlayoutView { queue: Seq::empty(), started: false, rate: 0 }),
    {
        ClientHandle {
            addr,
            output_device: "".to_string(),
            server,
            stop: false,
            mode: Mode::Connecting,
            src_rate: 0,
            level: 0,
            preempted: false,
            error: None,
            playout: Playout::new(),
        }
    }

    /// The output device is there.
    pub fn output_ready(&mut self, name: String, rate: u32)
        ensures
            final(self)@ == old(self)@.with_output(name@, rate),
    {
        self.output_device = name;
        self.playout.ready(rate);
    }

    /// Whether the use goes on: until it is stopped, refused or ended; a stream
    /// that broke off goes on.
    pub fn is_connected(&self) -> (r: bool)
        ensures
            r == !self@.stopped,
    {
        !self.stop
    }

    pub fn mode(&self) -> (r: Mode)
        ensures
            r == self@.mode,
    {
        self.mode
    }

    /// The sample rate of the stream; zero before there was one.
    pub fn src_rate(&self) -> (r: u32)
        ensures
            r == self@.src_rate,
    {
        self.src_rate
    }

    /// The sample rate of the output device; zero while it is not ready.
    pub fn out_rate(&self) -> (r: u32)
        ensures
            r == self@.playout.rate,
    {
        self.playout.out_rate()
    }

    /// How much sound is buffered, in milliseconds.
    pub fn buffer_ms(&self) -> (r: u32)
        ensures
            r == (if self@.playout.rate == 0 {
                0
            } else {
                (self@.playout.queue.len() as int * 1000) / (self@.playout.rate as int)
            }),
            r <= audio::MAX_BUFFER_MS,
    {
        self.playout.buffer_ms()
    }

    /// The level of what was played last, in thousandths.
    pub fn level(&self) -> (r: u32)
        ensures
            r == self@.level,
    {
        self.level
    }

    /// What there is to tell the user.
    pub fn take_error(&self) -> (r: Option<String>)
        ensures
            text::opt_view(r) == self@.error,
    {
        opt_copy(&self.error)
    }

    /// Whether another device took the microphone over.
    pub fn preempted(&self) -> (r: bool)
        ensures
            r == self@.preempted,
    {
        self.preempted
    }

    /// The user stops the use.
    pub fn stop(&mut self)
        ensures
            final(self)@ == (ClientView { stopped: true, ..old(self)@ }),
    {
        self.stop = true;
    }

    /// The playing failed.
    pub fn playback_failed(&mut self, message: &str)
        ensures
            final(self)@ == old(self)@.unplayed(message@),
    {
        self.error = Some("播放流错误: ".to_string().concat(message));
    }

    /// Begins a claim, unless the use is over: the token to present, which is
    /// empty where the server has issued none. Then the owner has to agree, and
    /// the user is told so.
    pub fn begin_claim(&mut self, store: &Store) -> (r: Option<String>)
        ensures
            old(self)@.stopped ==> r is None && final(self)@ == old(self)@,
            !old(self)@.stopped ==> r is Some && r->0@ == (match settings::token_of(
                store.settings@.known_servers,
                old(self)@.server_id,
            ) {
                Some(t) => t,
                None => ""@,
            }) && final(self)@ == old(self)@.claiming(r->0@),
    {
        if self.stop {
            return None;
        }
        let token = match token_for_server(store, self.server.id.as_str()) {
            Some(t) => t,
            None => "".to_string(),
        };
        if token.as_str().is_empty() {
            self.mode = Mode::Waiting;
            self.error = Some(
                "等待「".to_string().concat(self.server.name.as_str()).concat("」确认授权…"),
            );
        }
        Some(token)
    }

    /// The stream is open. A token that came with it is remembered, so that the
    /// owner is not asked again.
    pub fn claim_opened(&mut self, store: &mut Store, rate: u32, token: Option<String>)
        ensures
            final(self)@ == old(self)@.opened(rate),
            final(store).settings@ == after_token(
                old(store).settings@,
                old(self)@.server_id,
                old(self)@.server_name,
                text::opt_view(token),
            ),
            final(store).unsaved == (old(store).unsaved || (old(self)@.server_id.len() > 0
                && token is Some && token->0@.len() > 0)),
    {
        match token {
            Some(t) => {
                remember_server(
                    store,
                    self.server.id.as_str(),
                    t.as_str(),
                    self.server.name.as_str(),
                );
            },
            None => {},
        }
        self.src_rate = rate;
        self.error = None;
        self.mode = Mode::Streaming;
    }

    /// The stream could not be opened.
    pub fn claim_failed(&mut self, e: OpenErr) -> (r: ClaimTodo)
        ensures
            match e@ {
                OpenErrView::Denied(m) => final(self)@ == old(self)@.denied(m) && r
                    == ClaimTodo::End,
                OpenErrView::Retry(m) => final(self)@ == old(self)@.unreachable(m) && r
                    == ClaimTodo::RetryAfter(RETRY_OFFLINE_MS),
            },
    {
        match e {
            OpenErr::Denied(m) => {
                self.error = Some(m);
                self.mode = Mode::Denied;
                self.stop = true;
                ClaimTodo::End
            },
            OpenErr::Retry(m) => {
                self.mode = Mode::Connecting;
                self.error = Some("服务端不可达,自动重试中: ".to_string().concat(m.as_str()));
                ClaimTodo::RetryAfter(RETRY_OFFLINE_MS)
            },
        }
    }

    /// The stream came to an end.
    pub fn stream_over(&mut self, end: StreamEnd) -> (r: ClaimTodo)
        ensures
            match end {
                StreamEnd::Graceful(reason) => final(self)@ == old(self)@.ended(reason) && r
                    == ClaimTodo::End,
                StreamEnd::Lost => final(self)@ == old(self)@.lost() && r == ClaimTodo::RetryAfter(
                    RETRY_LOST_MS,
                ),
                StreamEnd::Stopped => final(self)@ == old(self)@ && r == ClaimTodo::End,
            },
    {
        match end {
            StreamEnd::Graceful(reason) => {
                if reason == END_PREEMPTED {
                    self.preempted = true;
                    self.error = Some(
                        "麦克风已被其他设备接管,本机已停止使用".to_string(),
                    );
                } else {
                    self.error = Some("服务端已停止共享".to_string());
                }
                self.mode = Mode::Ended;
                self.stop = true;
                ClaimTodo::End
            },
            StreamEnd::Lost => {
                self.mode = Mode::Connecting;
                self.error = Some("连接中断,自动重连中".to_string());
                ClaimTodo::RetryAfter(RETRY_LOST_MS)
            },
            StreamEnd::Stopped => ClaimTodo::End,
        }
    }

    /// The head of a frame arrived.
    pub fn frame_arrived(&mut self, head: FrameHead) -> (r: FrameTodo)
        ensures
            r == match head {
                FrameHead::End => FrameTodo::Reason,
                FrameHead::Audio(n) => FrameTodo::Samples(n),
                FrameHead::Oversized => FrameTodo::GiveUp,
            },
            final(self)@ == old(self)@.framed(head),
    {
        match head {
            FrameHead::End => FrameTodo::Reason,
            FrameHead::Audio(n) => FrameTodo::Samples(n),
            FrameHead::Oversized => {
                self.error = Some("收到异常数据帧,本轮串流已断开".to_string());
                FrameTodo::GiveUp
            },
        }
    }

    /// Sound arrived and is queued for playing.
    pub fn sound_arrived(&mut self, samples: &[u32])
        ensures
            final(self)@ == (ClientView {
                playout: old(self)@.playout.received(samples@),
                ..old(self)@
            }),
    {
        self.playout.receive(samples);
    }

    /// The output device wants the next block.
    pub fn fill(&mut self, frames: usize) -> (r: Vec<u32>)
        ensures
            r@ == old(self)@.playout.block(frames as nat),
            final(self)@ == (ClientView {
                playout: old(self)@.playout.after_block(frames as nat),
                ..old(self)@
            }),
    {
        self.playout.fill(frames)
    }

    /// The level of the block that was played, in thousandths.
    pub fn set_level(&mut self, level: u32)
        ensures
            final(self)@ == (ClientView { level, ..old(self)@ }),
    {
        self.level = level;
    }
}

/// The reason for a graceful end: four bytes, or a plain end where they did not
/// come.
pub fn end_reason(bytes: Option<[u8; 4]>) -> (r: u32)
    ensures
        r == match bytes {
            Some(b) => wire::from_le32(b@) as u32,
            None => END_SERVER_CLOSING,
        },
{
    match bytes {
        Some(b) => {
            assert(b@.subrange(0, 4) =~= b@);
            read_le32(&b, 0)
        },
        None => END_SERVER_CLOSING,
    }
}

/// The next piece of a pause, so that a stop is noticed soon.
pub fn nap(left_ms: u64) -> (r: u64)
    ensures
        r == (if left_ms < 100 {
            left_ms
        } else {
            100
        }),
        left_ms > 0 ==> 0 < r <= left_ms,
{
    if left_ms < 100 {
        left_ms
    } else {
        100
    }
}

// ---------------------------------------------------------------------------
// What holds of every run
// ---------------------------------------------------------------------------

/// Anything that happens to a client.
pub enum ClaimEvent {
    Claims(Seq<char>),
    Opened(u32),
    Denied(Seq<char>),
    Unreachable(Seq<char>),
    Ended(u32),
    Lost,
    Stopped,
    Received(Seq<u32>),
    Played(nat),
    Shown(u32),
    OutputReady(Seq<char>, u32),
    PlaybackFailed(Seq<char>),
    FrameArrived(FrameHead),
}

/// What an event does to a client.
pub open spec fn client_after(v: ClientView, e: ClaimEvent) -> ClientView {
    match e {
        ClaimEvent::Claims(token) => v.claiming(token),
        ClaimEvent::Opened(rate) => v.opened(rate),
        ClaimEvent::Denied(m) => v.denied(m),
        ClaimEvent::Unreachable(m) => v.unreachable(m),
        ClaimEvent::Ended(reason) => v.ended(reason),
        ClaimEvent::Lost => v.lost(),
        ClaimEvent::Stopped => ClientView { stopped: true, ..v },
        ClaimEvent::Received(samples) => ClientView { playout: v.playout.received(samples), ..v },
        ClaimEvent::Played(frames) => ClientView { playout: v.playout.after_block(frames), ..v },
        ClaimEvent::Shown(level) => ClientView { level, ..v },
        ClaimEvent::OutputReady(name, rate) => v.with_output(name, rate),
        ClaimEvent::PlaybackFailed(m) => v.unplayed(m),
        ClaimEvent::FrameArrived(head) => v.framed(head),
    }
}

/// What a run of events does to a client.
pub open spec fn client_after_all(v: ClientView, events: Seq<ClaimEvent>) -> ClientView
    decreases events.len(),
{
    if events.len() == 0 {
        v
    } else {
        client_after(client_after_all(v, events.drop_last()), events.last())
    }
}

/// A use that is over stays over, whatever happens: no claim is begun again.
pub proof fn law_over_is_final(v: ClientView, events: Seq<ClaimEvent>)
    requires
        v.stopped,
    ensures
        client_after_all(v, events).stopped,
    decreases events.len(),
{
    if events.len() > 0 {
        law_over_is_final(v, events.drop_last());
    }
}

/// A denial is final: the client shows it with the owner's reason, and whatever
/// happens afterwards it asks no more.
pub proof fn law_denial_is_final(v: ClientView, message: Seq<char>, events: Seq<ClaimEvent>)
    ensures
        v.denied(message).mode == Mode::Denied,
        v.denied(message).error == Some(message),
        client_after_all(v.denied(message), events).stopped,
{
    law_over_is_final(v.denied(message), events);
}

/// A client that was taken over does not grab the microphone back.
pub proof fn law_preempted_client_stays_away(v: ClientView, events: Seq<ClaimEvent>)
    ensures
        v.ended(END_PREEMPTED).mode == Mode::Ended,
        v.ended(END_PREEMPTED).preempted,
        client_after_all(v.ended(END_PREEMPTED), events).stopped,
{
    law_over_is_final(v.ended(END_PREEMPTED), events);
}

/// Failures of the network end nothing: the client goes on to claim again.
pub proof fn law_network_failures_are_retried(v: ClientView, message: Seq<char>)
    ensures
        v.lost().stopped == v.stopped,
        v.unreachable(message).stopped == v.stopped,
        v.lost().mode == Mode::Connecting,
        v.unreachable(message).mode == Mode::Connecting,
{
}

/// Status 403 is the only refusal that is final.
pub proof fn law_only_a_person_denies(code: u16, message: Option<Seq<char>>)
    ensures
        refusal(code, message) is Denied <==> code == 403,
        (preauth_outcome(code, message) matches Ok(PreauthView::Denied(_))) <==> code == 403,
{
}

// ---------------------------------------------------------------------------
// What the client is for
// ---------------------------------------------------------------------------

/// An address that names its port is taken as it is; any other gets the port that
/// servers listen on.
pub proof fn law_address_gets_a_port(addr: Seq<char>)
    ensures
        addr.contains(':') ==> with_port(addr) == addr,
        !addr.contains(':') ==> with_port(addr) == addr + ":47800"@,
        with_port(with_port(addr)) == with_port(addr),
{
    reveal_strlit(":");
    reveal_strlit(":47800");
    reveal_with_fuel(text::decimal, 6);
    assert(":"@ + text::decimal(47800) =~= ":47800"@);
    if !addr.contains(':') {
        let full = addr + ":"@ + text::decimal(47800);
        assert(full =~= addr + (":"@ + text::decimal(47800)));
        assert(full[addr.len() as int] == ':');
        assert(full.contains(':'));
    }
}

/// Only a document of this app gives an identity: its id and its name, with
/// defaults for what an old server leaves out.
pub proof fn law_identity_is_that_of_the_document(o: json::Object)
    ensures
        ident_in(o) is Ok <==> json::text_at(o, "app"@) == Some("micsync"@),
        ident_in(o) matches Err(e) ==> e == "对方不是 MicSync 服务端"@,
        ident_in(o) matches Ok((id, name)) ==> {
            &&& json::text_at(o, "device_id"@) matches Some(t) ==> id == t
            &&& json::text_at(o, "device_id"@) is None ==> id.len() == 0
            &&& json::text_at(o, "alias"@) matches Some(t) ==> name == t
            &&& json::text_at(o, "alias"@) is None ==> name == "MicSync"@
        },
{
    reveal_strlit("");
}

/// A health answer gives an identity exactly if it is an HTTP answer with status
/// 200 and a JSON document of this app.
pub proof fn law_health_answer_is_judged(resp: Seq<char>)
    ensures
        ident_of(resp) is Ok <==> {
            &&& http::response_parts(resp) is Ok
            &&& (http::response_parts(resp)->Ok_0).0 == 200
            &&& json::json_object(
                vstd::utf8::encode_utf8((http::response_parts(resp)->Ok_0).1),
            ) is Some
            &&& ident_in(
                json::json_object(
                    vstd::utf8::encode_utf8((http::response_parts(resp)->Ok_0).1),
                )->0,
            ) is Ok
        },
        ident_of(resp) is Ok ==> ident_of(resp) == ident_in(
            json::json_object(vstd::utf8::encode_utf8((http::response_parts(resp)->Ok_0).1))->0,
        ),
        http::response_parts(resp) matches Err(e) ==> ident_of(resp) == Err::<
            (Seq<char>, Seq<char>),
            Seq<char>,
        >(e),
        http::response_parts(resp) matches Ok((code, body)) ==> {
            &&& code != 200 ==> ident_of(resp) == Err::<(Seq<char>, Seq<char>), Seq<char>>(
                "服务端返回 HTTP "@ + text::decimal(code as nat),
            )
            &&& code == 200 && json::json_object(vstd::utf8::encode_utf8(body)) is None
                ==> ident_of(resp) == Err::<(Seq<char>, Seq<char>), Seq<char>>(
                "响应不是有效 JSON,对方可能不是 MicSync 服务端"@,
            )
        },
{
}

/// Status 200 opens the stream, with the token that the head carries if it carries
/// one; any other status refuses it; without a status there is no answer.
pub proof fn law_stream_opens_with_status_200(head: Seq<char>)
    ensures
        http::status_code(head) == Some(200u16) <==> stream_head(head) is Open,
        stream_head(head) matches StreamHeadView::Open(token) ==> {
            &&& http::header(head, "x-micsync-token"@) matches Some(t) ==> (t.len() > 0 ==> token
                == Some(t))
            &&& token is Some ==> http::header(head, "x-micsync-token"@) == token && token->0.len()
                > 0
        },
        http::status_code(head) matches Some(code) ==> (code != 200 ==> stream_head(head)
            == StreamHeadView::Refused(code)),
        http::status_code(head) is None ==> stream_head(head) == StreamHeadView::Malformed(
            OpenErrView::Retry("串流响应状态行异常"@),
        ),
{
}

/// What the owner or the server says reaches the user: a refusal carries the
/// message that came with it, or the status code where none did.
pub proof fn law_refusal_carries_the_message(code: u16, message: Seq<char>)
    ensures
        code == 403 ==> refusal(code, Some(message)) == OpenErrView::Denied(message),
        code == 403 ==> refusal(code, None) == OpenErrView::Denied(
            "HTTP "@ + text::decimal(code as nat),
        ),
        code != 403 ==> refusal(code, Some(message)) == OpenErrView::Retry(
            "服务端拒绝串流: "@ + message,
        ),
        code != 403 ==> refusal(code, None) == OpenErrView::Retry(
            "服务端拒绝串流: "@ + ("HTTP "@ + text::decimal(code as nat)),
        ),
        forall|body: Seq<char>|
            json::json_object(vstd::utf8::encode_utf8(body)) is None ==> #[trigger] message_in(body)
                is None,
        forall|body: Seq<char>, o: json::Object|
            json::json_object(vstd::utf8::encode_utf8(body)) == Some(o) ==> #[trigger] message_in(
                body,
            ) == #[trigger] json::text_at(o, "message"@),
{
}

/// A stream header is accepted exactly if it begins as one and announces a rate
/// between 8 and 192 thousand; then the rate is what it announces. What is not
/// accepted is tried again.
pub proof fn law_rates_are_checked(header: Seq<u8>)
    ensures
        announced_rate(header) is Ok <==> wire::header_rate(header) is Some && 8000
            <= wire::header_rate(header)->0 <= 192000,
        announced_rate(header) matches Ok(rate) ==> wire::header_rate(header) == Some(rate),
        wire::header_rate(header) is None ==> announced_rate(header) == Err::<u32, OpenErrView>(
            OpenErrView::Retry("对方不是 MicSync 服务端(协议头不匹配)"@),
        ),
        wire::header_rate(header) matches Some(rate) ==> (rate < 8000 || rate > 192000
            ==> announced_rate(header) == Err::<u32, OpenErrView>(
            OpenErrView::Retry("服务端采样率异常: "@ + text::decimal(rate as nat)),
        )),
{
}

/// What an answer to asking beforehand means: 200 grants, 403 denies with the
/// owner's words, 404 is an old server, and any other is a failure that is told.
pub proof fn law_authorization_goes_by_the_status(code: u16, message: Seq<char>)
    ensures
        code == 200 <==> preauth_outcome(code, Some(message)) == Ok::<PreauthView, Seq<char>>(
            PreauthView::Granted,
        ),
        code == 200 <==> preauth_outcome(code, None) == Ok::<PreauthView, Seq<char>>(
            PreauthView::Granted,
        ),
        code == 403 ==> preauth_outcome(code, Some(message)) == Ok::<PreauthView, Seq<char>>(
            PreauthView::Denied(message),
        ),
        code == 403 ==> preauth_outcome(code, None) == Ok::<PreauthView, Seq<char>>(
            PreauthView::Denied("对方拒绝了麦克风授权请求"@),
        ),
        code == 404 <==> preauth_outcome(code, Some(message)) == Ok::<PreauthView, Seq<char>>(
            PreauthView::Unsupported,
        ),
        code == 404 <==> preauth_outcome(code, None) == Ok::<PreauthView, Seq<char>>(
            PreauthView::Unsupported,
        ),
        code != 200 && code != 403 && code != 404 ==> preauth_outcome(code, Some(message)) == Err::<
            PreauthView,
            Seq<char>,
        >("服务端拒绝授权请求: "@ + message) && preauth_outcome(code, None) == Err::<
            PreauthView,
            Seq<char>,
        >("服务端拒绝授权请求: "@ + ("HTTP "@ + text::decimal(code as nat))),
{
}

/// A whole answer to asking beforehand means what its status and its message do,
/// and only one that grants issues a token: the one in its head.
pub proof fn law_authorization_answer_is_read(resp: Seq<char>)
    ensures
        http::response_parts(resp) matches Ok((code, body)) ==> preauth_reply(resp)
            == preauth_outcome(code, message_in(body)),
        http::response_parts(resp) matches Err(e) ==> preauth_reply(resp) == Err::<
            PreauthView,
            Seq<char>,
        >(e) && preauth_token(resp) is None,
        preauth_token(resp) is Some ==> preauth_reply(resp) == Ok::<PreauthView, Seq<char>>(
            PreauthView::Granted,
        ),
        preauth_token(resp) matches Some(t) ==> t.len() > 0 && http::header(
            (text::split_once(resp, http::blank())->0).0,
            "x-micsync-token"@,
        ) == Some(t),
        preauth_reply(resp) == Ok::<PreauthView, Seq<char>>(PreauthView::Granted) ==> preauth_token(
            resp,
        ) == http::head_token((text::split_once(resp, http::blank())->0).0),
{
}

/// A token that a server issued is used with it from then on, and with no other; an
/// answer without one changes nothing.
pub proof fn law_issued_token_is_kept(
    s: SettingsView,
    id: Seq<char>,
    name: Seq<char>,
    token: Seq<char>,
    other: Seq<char>,
)
    ensures
        after_token(s, id, name, None) == s,
        id.len() > 0 && token.len() > 0 ==> settings::token_of(
            after_token(s, id, name, Some(token)).known_servers,
            id,
        ) == Some(token),
        other != id ==> settings::token_of(
            after_token(s, id, name, Some(token)).known_servers,
            other,
        ) == settings::token_of(s.known_servers, other),
        ({
            let after = after_token(s, id, name, Some(token));
            &&& after.trusted == s.trusted && after.device_name == s.device_name
            &&& after.device_id == s.device_id && after.last_mode == s.last_mode
                && after.server_was_running == s.server_was_running
        }),
{
    if id.len() > 0 && token.len() > 0 {
        settings::law_remembered_token_is_used(s.known_servers, id, token, name);
    }
}

/// What each way for a claim to go does to the client, and that it leaves the rest
/// as it is: an open stream is received at its rate and clears what was told; a
/// denial and an end stop the use and say why; a failure keeps it going.
pub proof fn law_claims_go_these_ways(
    v: ClientView,
    token: Seq<char>,
    rate: u32,
    message: Seq<char>,
    reason: u32,
)
    ensures
        token.len() > 0 ==> v.claiming(token) == v,
        token.len() == 0 ==> v.claiming(token) == (ClientView {
            mode: Mode::Waiting,
            error: Some("等待「"@ + v.server_name + "」确认授权…"@),
            ..v
        }),
        ({
            let after = v.opened(rate);
            after == (ClientView { mode: Mode::Streaming, src_rate: rate, error: None, ..v })
        }),
        ({
            let after = v.denied(message);
            after == (ClientView {
                mode: Mode::Denied,
                error: Some(message),
                stopped: true,
                ..v
            })
        }),
        ({
            let after = v.unreachable(message);
            &&& after == (ClientView { mode: Mode::Connecting, error: after.error, ..v })
            &&& after.error is Some && after.error->0.len() >= message.len()
                && after.error->0.skip(after.error->0.len() - message.len()) == message
        }),
        ({
            let after = v.ended(reason);
            &&& after.error is Some
            &&& after.preempted <==> v.preempted || reason == 1
            &&& reason != 1 ==> after.error == v.ended(0).error
            &&& after == (ClientView {
                mode: Mode::Ended,
                stopped: true,
                error: after.error,
                preempted: after.preempted,
                ..v
            })
        }),
        v.ended(1).error != v.ended(0).error,
        ({
            let after = v.lost();
            &&& after.error is Some && after.error->0.len() > 0
            &&& after == (ClientView { mode: Mode::Connecting, error: after.error, ..v })
        }),
{
    let told = v.unreachable(message).error->0;
    assert(told.skip(told.len() - message.len()) =~= message);
    reveal_strlit("麦克风已被其他设备接管,本机已停止使用");
    reveal_strlit("服务端已停止共享");
    reveal_strlit("连接中断,自动重连中");
    assert("麦克风已被其他设备接管,本机已停止使用"@.len() != "服务端已停止共享"@.len());
}

/// The output device, its failures and odd frames concern what is shown and the
/// buffer alone: they neither stop nor start the use.
pub proof fn law_sound_does_not_end_the_use(
    v: ClientView,
    name: Seq<char>,
    rate: u32,
    message: Seq<char>,
    head: FrameHead,
)
    ensures
        ({
            let after = v.with_output(name, rate);
            let most = (rate as int * 300) / 1000;
            let queue = v.playout.queue;
            &&& after == (ClientView { output_device: name, playout: after.playout, ..v })
            &&& after.playout.rate == rate && after.playout.started == v.playout.started
            &&& queue.len() <= most ==> after.playout.queue == queue
            &&& queue.len() > most ==> after.playout.queue == queue.skip(queue.len() - most)
        }),
        ({
            let after = v.unplayed(message);
            &&& after == (ClientView { error: after.error, ..v })
            &&& after.error is Some && after.error->0.len() >= message.len()
                && after.error->0.skip(after.error->0.len() - message.len()) == message
        }),
        !(head is Oversized) ==> v.framed(head) == v,
        head is Oversized ==> v.framed(head).error is Some && v.framed(head) == (ClientView {
            error: v.framed(head).error,
            ..v
        }),
{
    let told = v.unplayed(message).error->0;
    assert(told.skip(told.len() - message.len()) =~= message);
    let set = audio::PlayoutView { rate, ..v.playout };
    audio::law_received_sound_is_kept(set, Seq::empty());
    let queue = v.playout.queue;
    let most = (rate as int * 300) / 1000;
    assert(queue + Seq::<u32>::empty() =~= queue);
    if queue.len() > most {
        assert(queue.skip(queue.len() - most) =~= queue.subrange(
            queue.len() - most,
            queue.len() as int,
        ));
    }
}

/// What is known of the outcomes is all that they hold.
pub proof fn law_outcomes_are_known_whole(
    e: OpenErr,
    p: Preauth,
    token: Option<String>,
    code: u16,
    ident: ServerIdent,
    words: String,
)
    ensures
        e matches OpenErr::Denied(m) ==> e@ == OpenErrView::Denied(m@),
        e matches OpenErr::Retry(m) ==> e@ == OpenErrView::Retry(m@),
        p is Granted ==> p@ is Granted,
        p is Unsupported ==> p@ is Unsupported,
        p matches Preauth::Denied(m) ==> p@ == PreauthView::Denied(m@),
        preauth_result(Ok(p)) == Ok::<PreauthView, Seq<char>>(p@),
        preauth_result(Err(words)) == Err::<PreauthView, Seq<char>>(words@),
        StreamHead::Refused(code)@ == StreamHeadView::Refused(code),
        StreamHead::Malformed(e)@ == StreamHeadView::Malformed(e@),
        token matches Some(t) ==> StreamHead::Open(token)@ == StreamHeadView::Open(Some(t@)),
        token is None ==> StreamHead::Open(token)@ == StreamHeadView::Open(None),
        ident_result(Ok(ident)) == Ok::<(Seq<char>, Seq<char>), Seq<char>>((ident.id@, ident.name@)),
        ident_result(Err(words)) == Err::<(Seq<char>, Seq<char>), Seq<char>>(words@),
{
}

/// A client that waits gives its signs of life well before it is taken for gone, and
/// failures are tried again within seconds.
pub proof fn law_pauses_are_short()
    ensures
        3 * PREAUTH_HEARTBEAT_MS <= 15000,
        0 < PREAUTH_HEARTBEAT_MS,
        0 < RETRY_LOST_MS <= 1000,
        0 < RETRY_OFFLINE_MS <= 2000,
{
}

} // verus!
