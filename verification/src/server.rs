//! The server: what it answers, who may use the microphone, and whose stream it
//! is.
//!
//! A request for the microphone is held until the owner agrees, unless it brings
//! a token that the owner's "always allow" issued. Only then can a session be
//! claimed: claiming uses up a [`Grant`], and only the consent gate makes one.
//! There is one session at a time, and the newest request has it.
use vstd::prelude::*;

use crate::audio::LevelMeter;
use crate::audio;
use crate::client;
use crate::discovery;
use crate::http::{header_value, json_response, parse_request_path, stream_response};
use crate::http;
use crate::json::{put, write_json, Leaf};
use crate::json;
use crate::settings::{sanitize_name, trust_client, trusted_by_token, SettingsView, Store, TrustedView};
use crate::settings;
use crate::text::{opt_copy, same_text};
use crate::text;
use crate::wire::stream_header;
use crate::wire::{END_PREEMPTED, END_SERVER_CLOSING};
use crate::wire;

verus! {

/// How long the owner has to answer a request for the stream.
pub const CONSENT_MS: u64 = 30000;

/// How long a client that waits for an authorization may give no sign of life.
pub const SILENCE_MS: u64 = 15000;

/// How often binding the port is tried again.
pub const BIND_RETRIES: u32 = 10;

/// The pause between two attempts to bind the port.
pub const BIND_RETRY_MS: u64 = 50;

// ---------------------------------------------------------------------------
// Requests
// ---------------------------------------------------------------------------

/// What consent is asked for.
#[derive(Debug, Clone, Copy, PartialEq, Eq, Structural)]
pub enum Kind {
    /// The microphone, now.
    Stream,
    /// The microphone, when it is needed.
    Authorize,
}

impl Kind {
    pub open spec fn word(self) -> Seq<char> {
        match self {
            Kind::Stream => "stream"@,
            Kind::Authorize => "authorize"@,
        }
    }

    pub fn as_str(&self) -> (r: &'static str)
        ensures
            r@ == self.word(),
    {
        match self {
            Kind::Stream => "stream",
            Kind::Authorize => "authorize",
        }
    }
}

/// A request that was understood.
pub enum Request {
    /// No `GET` request.
    Bad,
    /// For nothing that there is.
    NotFound,
    /// For the server's health.
    Health,
    /// For the microphone, by a device of a name, with a token that may be empty.
    Consent { kind: Kind, name: String, token: String },
}

pub enum RequestView {
    Bad,
    NotFound,
    Health,
    Consent { kind: Kind, name: Seq<char>, token: Seq<char> },
}

impl View for Request {
    type V = RequestView;

    open spec fn view(&self) -> RequestView {
        match *self {
            Request::Bad => RequestView::Bad,
            Request::NotFound => RequestView::NotFound,
            Request::Health => RequestView::Health,
            Request::Consent { kind, name, token } => RequestView::Consent {
                kind,
                name: name@,
                token: token@,
            },
        }
    }
}

/// The value of a header, empty where it is missing.
pub open spec fn header_or_empty(head: Seq<char>, name: Seq<char>) -> Seq<char> {
    match http::header(head, name) {
        Some(v) => v,
        None => Seq::empty(),
    }
}

/// A request for consent: the name is not trusted and is cleaned.
pub open spec fn consent_in(head: Seq<char>, kind: Kind) -> RequestView {
    RequestView::Consent {
        kind,
        name: settings::clean_name(header_or_empty(head, "x-micsync-name"@)),
        token: header_or_empty(head, "x-micsync-token"@),
    }
}

/// What a request head asks for.
pub open spec fn request_in(head: Seq<char>) -> RequestView {
    match http::request_path(head) {
        None => RequestView::Bad,
        Some(path) => if path == "/health"@ {
            RequestView::Health
        } else if path == "/stream"@ {
            consent_in(head, Kind::Stream)
        } else if path == "/authorize"@ {
            consent_in(head, Kind::Authorize)
        } else {
            RequestView::NotFound
        },
    }
}

fn value_or_empty(head: &str, name: &str) -> (r: String)
    ensures
        r@ == header_or_empty(head@, name@),
{
    match header_value(head, name) {
        Some(v) => v,
        None => String::new(),
    }
}

fn read_consent(head: &str, kind: Kind) -> (r: Request)
    ensures
        r@ == consent_in(head@, kind),
{
    let name = value_or_empty(head, "x-micsync-name");
    Request::Consent {
        kind,
        name: sanitize_name(name.as_str()),
        token: value_or_empty(head, "x-micsync-token"),
    }
}

/// Reads a request head.
pub fn read_request(head: &str) -> (r: Request)
    ensures
        r@ == request_in(head@),
{
    match parse_request_path(head) {
        None => Request::Bad,
        Some(path) => {
            if same_text(path.as_str(), "/health") {
                Request::Health
            } else if same_text(path.as_str(), "/stream") {
                read_consent(head, Kind::Stream)
            } else if same_text(path.as_str(), "/authorize") {
                read_consent(head, Kind::Authorize)
            } else {
                Request::NotFound
            }
        },
    }
}

// ---------------------------------------------------------------------------
// Answers
// ---------------------------------------------------------------------------

/// A response with a JSON body.
pub open spec fn response(
    code: u16,
    reason: Seq<char>,
    body: Seq<char>,
    token: Seq<char>,
) -> Seq<char> {
    http::head_text(http::json_response_lines(code, reason, body, token)) + body
}

/// The answer to what is no request.
pub fn bad_request() -> (r: String)
    ensures
        r@ == response(400, "Bad Request"@, r#"{"error":"bad_request"}"#@, ""@),
{
    json_response(400, "Bad Request", r#"{"error":"bad_request"}"#, "")
}

/// The answer to a request for something that there is not.
pub fn not_found() -> (r: String)
    ensures
        r@ == response(404, "Not Found"@, r#"{"error":"not_found"}"#@, ""@),
{
    json_response(404, "Not Found", r#"{"error":"not_found"}"#, "")
}

/// The members of an error document.
pub open spec fn error_members(error: Seq<char>, message: Seq<char>) -> json::Members {
    seq![
        ("error"@, json::LeafView::Text(error)),
        ("message"@, json::LeafView::Text(message)),
    ]
}

/// An error document as a text.
pub open spec fn error_text(error: Seq<char>, message: Seq<char>) -> Seq<char> {
    json::json_text(error_members(error, message))
}

/// A client that asked for the stream understands an answer as a refusal: the
/// head says that the stream does not follow, and the body says why.
pub open spec fn refusal_understood(
    answer: Seq<char>,
    code: u16,
    body: Seq<char>,
    e: client::OpenErrView,
) -> bool {
    &&& exists|head: Seq<char>|
        answer == head + body && #[trigger] client::stream_head(head)
            == client::StreamHeadView::Refused(code)
    &&& client::refusal(code, client::message_in(body)) == e
}

proof fn lemma_error_message(error: Seq<char>, message: Seq<char>)
    ensures
        json::text_at(json::object_of(error_members(error, message)), "message"@) == Some(message),
{
    let m = error_members(error, message);
    assert(m.last() == ("message"@, json::LeafView::Text(message)));
}

fn error_body(error: &str, message: &str) -> (r: String)
    ensures
        r@ == error_text(error@, message@),
        json::json_object(vstd::utf8::encode_utf8(r@)) == Some(
            json::object_of(error_members(error@, message@)),
        ),
{
    let mut list: Vec<(String, Leaf)> = Vec::new();
    put(&mut list, "error", Leaf::Text(error.to_string()));
    put(&mut list, "message", Leaf::Text(message.to_string()));
    assert(json::members_view(list@) =~= error_members(error@, message@));
    proof {
        reveal_strlit("error");
        reveal_strlit("message");
        assert("error"@.len() != "message"@.len());
    }
    write_json(list)
}

/// The answer to a request that the owner did not agree to. A client takes it
/// for a denial with the message, whether it asked for the stream or for an
/// authorization.
pub fn denied(message: &str) -> (r: String)
    ensures
        r@ == response(403, "Forbidden"@, error_text("denied"@, message@), ""@),
        refusal_understood(
            r@,
            403,
            error_text("denied"@, message@),
            client::OpenErrView::Denied(message@),
        ),
        client::preauth_reply(r@) == Ok::<client::PreauthView, Seq<char>>(
            client::PreauthView::Denied(message@),
        ),
{
    let body = error_body("denied", message);
    proof {
        reveal_strlit("Forbidden");
        reveal_strlit("");
        lemma_error_message("denied"@, message@);
        http::law_response_reads_back(403, "Forbidden"@, body@, ""@);
        let head = http::head_text(http::json_response_lines(403, "Forbidden"@, body@, ""@));
        assert(client::stream_head(head) == client::StreamHeadView::Refused(403));
    }
    json_response(403, "Forbidden", body.as_str(), "")
}

/// The members of the document that grants an authorization.
pub open spec fn authorized_members() -> json::Members {
    seq![("status"@, json::LeafView::Text("authorized"@))]
}

/// A token that survives in a header.
pub open spec fn proper_token(token: Seq<char>) -> bool {
    http::one_line(token) && http::trimmed_text(token)
}

/// The token that a client finds: none for an empty one.
pub open spec fn found_token(token: Seq<char>) -> Option<Seq<char>> {
    if token.len() == 0 {
        None
    } else {
        Some(token)
    }
}

/// The answer that grants an authorization, with a token where one was issued. A
/// client takes it for granted, and finds the token.
pub fn authorized(token: &str) -> (r: String)
    ensures
        r@ == response(200, "OK"@, json::json_text(authorized_members()), token@),
        proper_token(token@) ==> client::preauth_reply(r@) == Ok::<client::PreauthView, Seq<char>>(
            client::PreauthView::Granted,
        ) && client::preauth_token(r@) == found_token(token@),
{
    proof {
        reveal_strlit("OK");
        if proper_token(token@) {
            http::law_response_reads_back(
                200,
                "OK"@,
                json::json_text(authorized_members()),
                token@,
            );
        }
    }
    let mut list: Vec<(String, Leaf)> = Vec::new();
    put(&mut list, "status", Leaf::Text("authorized".to_string()));
    assert(json::members_view(list@) =~= authorized_members());
    let body = write_json(list);
    json_response(200, "OK", body.as_str(), token)
}

// ---------------------------------------------------------------------------
// The state of the server
// ---------------------------------------------------------------------------

/// What the owner decides.
#[derive(Debug, Clone, Copy, PartialEq, Eq, Structural)]
pub enum Decision {
    Deny,
    Once,
    Always,
}

/// A request that waits for the owner.
pub struct Waiting {
    ticket: u64,
    kind: Kind,
    name: String,
    addr: String,
    host: String,
    decision: Option<Decision>,
}

#[verifier::ext_equal]
pub struct WaitingView {
    /// Names the request to the connection that holds it.
    pub ticket: u64,
    pub kind: Kind,
    /// The name that the device gives itself.
    pub name: Seq<char>,
    /// Where it comes from, with its port and without.
    pub addr: Seq<char>,
    pub host: Seq<char>,
    /// What the owner decided, once that is so.
    pub decision: Option<Decision>,
}

impl View for Waiting {
    type V = WaitingView;

    closed spec fn view(&self) -> WaitingView {
        WaitingView {
            ticket: self.ticket,
            kind: self.kind,
            name: self.name@,
            addr: self.addr@,
            host: self.host@,
            decision: self.decision,
        }
    }
}

pub open spec fn waiting_views(list: Seq<Waiting>) -> Seq<WaitingView> {
    Seq::new(list.len(), |i: int| list[i]@)
}

/// The session that streams.
pub struct Session {
    id: u64,
    addr: String,
}

#[verifier::ext_equal]
pub struct SessionView {
    pub id: u64,
    pub addr: Seq<char>,
}

/// The state of a server.
#[verifier::ext_equal]
pub struct ServerView {
    pub port: u16,
    pub stopped: bool,
    /// The device that the owner chose.
    pub device_pref: Option<Seq<char>>,
    /// Who has the microphone.
    pub session: Option<SessionView>,
    pub next_id: u64,
    pub meter: audio::MeterView,
    /// The device that was captured from last, and its rate.
    pub last_device: Seq<char>,
    pub last_rate: u32,
    pub error: Option<Seq<char>>,
    /// The requests that the owner has to answer, oldest first.
    pub waiting: Seq<WaitingView>,
    pub next_ticket: u64,
    /// The hosts that were allowed once and have not made use of it.
    pub passes: Seq<Seq<char>>,
}

/// The number after a number, around the end.
pub open spec fn after_number(n: u64) -> u64 {
    if n == u64::MAX {
        0
    } else {
        (n + 1) as u64
    }
}

/// Permission to claim the microphone: the owner's consent to one request. The
/// consent gate alone makes it, and one claim uses it up.
pub struct Grant {
    token: String,
}

impl Grant {
    /// The token survives in a header.
    #[verifier::type_invariant]
    spec fn sendable(self) -> bool {
        proper_token(self.token@)
    }

    /// The token to hand to the client; empty where none was issued.
    pub closed spec fn issued(self) -> Seq<char> {
        self.token@
    }

    /// The token to hand to the client; empty where none was issued.
    pub fn token(&self) -> (r: String)
        ensures
            r@ == self.issued(),
    {
        self.token.clone()
    }
}

/// A session that was claimed with a grant, and the token to hand to its client.
pub struct Claim {
    id: u64,
    token: String,
}

impl Claim {
    /// The token survives in a header.
    #[verifier::type_invariant]
    spec fn sendable(self) -> bool {
        proper_token(self.token@)
    }

    /// The id of the session.
    pub closed spec fn session(self) -> u64 {
        self.id
    }

    /// The token to hand to the client; empty where none was issued.
    pub closed spec fn issued(self) -> Seq<char> {
        self.token@
    }

    /// The id of the session.
    pub fn id(&self) -> (r: u64)
        ensures
            r == self.session(),
    {
        self.id
    }
}

/// A server in use.
pub struct ServerHandle {
    port: u16,
    stop: bool,
    device_pref: Option<String>,
    session: Option<Session>,
    next_id: u64,
    meter: LevelMeter,
    last_device: String,
    last_rate: u32,
    error: Option<String>,
    waiting: Vec<Waiting>,
    next_ticket: u64,
    passes: Vec<String>,
}

impl View for ServerHandle {
    type V = ServerView;

    closed spec fn view(&self) -> ServerView {
        ServerView {
            port: self.port,
            stopped: self.stop,
            device_pref: text::opt_view(self.device_pref),
            session: match self.session {
                Some(s) => Some(SessionView { id: s.id, addr: s.addr@ }),
                None => None,
            },
            next_id: self.next_id,
            meter: self.meter@,
            last_device: self.last_device@,
            last_rate: self.last_rate,
            error: text::opt_view(self.error),
            waiting: waiting_views(self.waiting@),
            next_ticket: self.next_ticket,
            passes: text::text_views(self.passes@),
        }
    }
}

/// A server that has just begun to listen: the microphone is closed and nobody
/// has asked for it.
pub open spec fn listening(port: u16, device: Option<Seq<char>>) -> ServerView {
    ServerView {
        port,
        stopped: false,
        device_pref: device,
        session: None,
        next_id: 1,
        meter: audio::MeterView { level: 0, wave: Seq::empty(), seq: 0 },
        last_device: Seq::empty(),
        last_rate: 0,
        error: None,
        waiting: Seq::empty(),
        next_ticket: 1,
        passes: Seq::empty(),
    }
}

/// A server that listens on a port.
pub fn start(device_name: Option<String>, port: u16) -> (r: ServerHandle)
    ensures
        r@ == listening(port, text::opt_view(device_name)),
{
    let r = ServerHandle {
        port,
        stop: false,
        device_pref: device_name,
        session: None,
        next_id: 1,
        meter: LevelMeter::new(),
        last_device: String::new(),
        last_rate: 0,
        error: None,
        waiting: Vec::new(),
        next_ticket: 1,
        passes: Vec::new(),
    };
    assert(r@ =~= listening(port, text::opt_view(device_name)));
    r
}

/// Whether to try again to bind the port, and after which pause: the server that
/// has just stopped may still hold it.
pub fn bind_again(failures: u32) -> (r: Option<u64>)
    ensures
        r == (if failures < BIND_RETRIES {
            Some(BIND_RETRY_MS)
        } else {
            None
        }),
{
    if failures < BIND_RETRIES {
        Some(BIND_RETRY_MS)
    } else {
        None
    }
}

// ---------------------------------------------------------------------------
// Sessions
// ---------------------------------------------------------------------------

impl ServerView {
    /// A request has claimed the microphone; whoever had it is out.
    pub open spec fn claimed(self, addr: Seq<char>) -> ServerView {
        ServerView {
            session: Some(SessionView { id: self.next_id, addr }),
            next_id: after_number(self.next_id),
            ..self
        }
    }

    /// A session is over; if the microphone is already another's, it stays so.
    pub open spec fn released(self, id: u64) -> ServerView {
        ServerView {
            session: if self.has(id) {
                None
            } else {
                self.session
            },
            ..self
        }
    }

    /// A session has the microphone.
    pub open spec fn has(self, id: u64) -> bool {
        self.session matches Some(s) && s.id == id
    }

    /// Why a session has to end: the server stops, or another session has the
    /// microphone. Nothing while it may go on.
    pub open spec fn end_of(self, id: u64) -> Option<u32> {
        if self.stopped {
            Some(END_SERVER_CLOSING)
        } else if !self.has(id) {
            Some(END_PREEMPTED)
        } else {
            None
        }
    }

    /// The device that is shown.
    pub open spec fn shown_device(self) -> Seq<char> {
        match self.device_pref {
            Some(d) => d,
            None => if self.last_device.len() == 0 {
                "系统默认"@
            } else {
                self.last_device
            },
        }
    }

    /// The address of the client that has the microphone; empty for none.
    pub open spec fn client(self) -> Seq<char> {
        match self.session {
            Some(s) => s.addr,
            None => Seq::empty(),
        }
    }

    /// The members of the health document.
    pub open spec fn health_members(
        self,
        alias: Seq<char>,
        device_type: Seq<char>,
        device_id: Seq<char>,
    ) -> json::Members {
        seq![
            ("status"@, json::LeafView::Text("ok"@)),
            ("app"@, json::LeafView::Text("micsync"@)),
            ("streaming"@, json::LeafView::Flag(self.session is Some)),
            ("client"@, json::LeafView::Text(self.client())),
            ("sample_rate"@, json::LeafView::Number(self.last_rate as u64)),
            ("alias"@, json::LeafView::Text(alias)),
            ("device_type"@, json::LeafView::Text(device_type)),
            ("device_id"@, json::LeafView::Text(device_id)),
        ]
    }
}

impl ServerHandle {
    /// The port that it listens on.
    pub fn port(&self) -> (r: u16)
        ensures
            r == self@.port,
    {
        self.port
    }

    /// Chooses the device for the next session.
    pub fn set_device(&mut self, name: Option<String>)
        ensures
            final(self)@ == (ServerView { device_pref: text::opt_view(name), ..old(self)@ }),
    {
        self.device_pref = name;
    }

    /// The device that the owner chose for the next session.
    pub fn device_pref(&self) -> (r: Option<String>)
        ensures
            text::opt_view(r) == self@.device_pref,
    {
        opt_copy(&self.device_pref)
    }

    /// The device to show: the chosen one, else the one that was used last.
    pub fn device(&self) -> (r: String)
        ensures
            r@ == self@.shown_device(),
    {
        match opt_copy(&self.device_pref) {
            Some(d) => d,
            None => {
                if self.last_device.as_str().is_empty() {
                    "系统默认".to_string()
                } else {
                    self.last_device.clone()
                }
            },
        }
    }

    /// The sample rate of the last session; zero before the first.
    pub fn sample_rate(&self) -> (r: u32)
        ensures
            r == self@.last_rate,
    {
        self.last_rate
    }

    /// The client that has the microphone.
    pub fn stream_addr(&self) -> (r: Option<String>)
        ensures
            text::opt_view(r) == match self@.session {
                Some(s) => Some(s.addr),
                None => None,
            },
    {
        match &self.session {
            Some(s) => Some(s.addr.clone()),
            None => None,
        }
    }

    /// The level of the microphone, in thousandths.
    pub fn level(&self) -> (r: u32)
        ensures
            r == self@.meter.level,
    {
        self.meter.level()
    }

    /// The peaks of the last blocks, in thousandths, and the count of all blocks.
    pub fn wave(&self) -> (r: (Vec<u32>, u64))
        ensures
            r.0@ == self@.meter.wave,
            r.1 == self@.meter.seq,
    {
        self.meter.wave_snapshot()
    }

    /// A block was captured.
    pub fn captured(&mut self, peak: u32)
        ensures
            final(self)@ == (ServerView { meter: old(self)@.meter.pushed(peak), ..old(self)@ }),
    {
        self.meter.push(peak);
    }

    /// What there is to tell the owner.
    pub fn take_error(&self) -> (r: Option<String>)
        ensures
            text::opt_view(r) == self@.error,
    {
        opt_copy(&self.error)
    }

    /// Stops the server; every session is told so.
    pub fn stop(&mut self)
        ensures
            final(self)@ == (ServerView { stopped: true, ..old(self)@ }),
    {
        self.stop = true;
    }

    pub fn is_stopped(&self) -> (r: bool)
        ensures
            r == self@.stopped,
    {
        self.stop
    }

    /// The answer to the request for the server's health. A client finds the
    /// device's id and name in it, and a scan of any other device finds this
    /// server by it.
    pub fn health(&self, alias: &str, device_type: &str, device_id: &str) -> (r: String)
        ensures
            r@ == response(
                200,
                "OK"@,
                json::json_text(self@.health_members(alias@, device_type@, device_id@)),
                ""@,
            ),
            json::json_object(
                vstd::utf8::encode_utf8(
                    json::json_text(self@.health_members(alias@, device_type@, device_id@)),
                ),
            ) == Some(
                json::object_of(self@.health_members(alias@, device_type@, device_id@)),
            ),
            client::ident_of(r@) == Ok::<(Seq<char>, Seq<char>), Seq<char>>((device_id@, alias@)),
            forall|
                s: SettingsView,
                addr: Seq<char>,
                ip: Option<discovery::Ipv4>,
                me: Seq<char>,
                mine: Seq<discovery::Ipv4>,
            |
                me != device_id@ ==> #[trigger] discovery::probed_peer(
                    vstd::utf8::encode_utf8(r@),
                    s,
                    addr,
                    ip,
                    me,
                    mine,
                ) == Some(
                    discovery::PeerView {
                        alias: alias@,
                        addr,
                        device_type: device_type@,
                        device_id: device_id@,
                        authorized: discovery::authorized_by(s, device_id@),
                    },
                ),
    {
        let (streaming, client) = match &self.session {
            Some(s) => (true, s.addr.clone()),
            None => (false, String::new()),
        };
        let mut list: Vec<(String, Leaf)> = Vec::new();
        put(&mut list, "status", Leaf::Text("ok".to_string()));
        put(&mut list, "app", Leaf::Text("micsync".to_string()));
        put(&mut list, "streaming", Leaf::Flag(streaming));
        put(&mut list, "client", Leaf::Text(client));
        put(&mut list, "sample_rate", Leaf::Number(self.last_rate as u64));
        put(&mut list, "alias", Leaf::Text(alias.to_string()));
        put(&mut list, "device_type", Leaf::Text(device_type.to_string()));
        put(&mut list, "device_id", Leaf::Text(device_id.to_string()));
        assert(json::members_view(list@) =~= self@.health_members(
            alias@,
            device_type@,
            device_id@,
        ));
        proof {
            lemma_health_names(self@, alias@, device_type@, device_id@);
        }
        let body = write_json(list);
        proof {
            reveal_strlit("OK");
            reveal_strlit("");
            lemma_health_members(self@, alias@, device_type@, device_id@);
            http::law_response_reads_back(200, "OK"@, body@, ""@);
            let lines = http::json_response_lines(200, "OK"@, body@, ""@);
            let o = json::object_of(self@.health_members(alias@, device_type@, device_id@));
            assert forall|
                s: SettingsView,
                addr: Seq<char>,
                ip: Option<discovery::Ipv4>,
                me: Seq<char>,
                mine: Seq<discovery::Ipv4>,
            |
                me != device_id@ implies #[trigger] discovery::probed_peer(
                vstd::utf8::encode_utf8(http::head_text(lines) + body@),
                s,
                addr,
                ip,
                me,
                mine,
            ) == Some(
                discovery::PeerView {
                    alias: alias@,
                    addr,
                    device_type: device_type@,
                    device_id: device_id@,
                    authorized: discovery::authorized_by(s, device_id@),
                },
            ) by {
                discovery::law_health_is_recognized(lines, body@, o, s, addr, ip, me, mine);
            }
        }
        json_response(200, "OK", body.as_str(), "")
    }

    /// Claims the microphone for a request that was granted, which uses the
    /// grant up. Whoever had the microphone is out.
    pub fn claim(&mut self, grant: Grant, addr: String) -> (r: Claim)
        ensures
            r.session() == old(self)@.next_id,
            r.issued() == grant.issued(),
            final(self)@ == old(self)@.claimed(addr@),
    {
        proof {
            use_type_invariant(&grant);
        }
        let id: u64 = self.next_id;
        self.next_id = id.wrapping_add(1);
        self.session = Some(Session { id, addr });
        Claim { id, token: grant.token }
    }

    fn release(&mut self, id: u64)
        ensures
            final(self)@ == old(self)@.released(id),
    {
        let mine = match &self.session {
            Some(s) => s.id == id,
            None => false,
        };
        if mine {
            self.session = None;
        }
    }

    /// The microphone could not be opened for a session: the session is over,
    /// and this is the answer.
    pub fn capture_failed(&mut self, id: u64, message: &str) -> (r: String)
        ensures
            final(self)@ == (ServerView { error: Some(message@), ..old(self)@ }).released(id),
            r@ == response(
                503,
                "Service Unavailable"@,
                error_text("mic_failed"@, message@),
                ""@,
            ),
            refusal_understood(
                r@,
                503,
                error_text("mic_failed"@, message@),
                client::OpenErrView::Retry("服务端拒绝串流: "@ + message@),
            ),
    {
        self.error = Some(message.to_string());
        self.release(id);
        let body = error_body("mic_failed", message);
        proof {
            reveal_strlit("Service Unavailable");
            reveal_strlit("");
            lemma_error_message("mic_failed"@, message@);
            http::law_response_reads_back(503, "Service Unavailable"@, body@, ""@);
            let head = http::head_text(
                http::json_response_lines(503, "Service Unavailable"@, body@, ""@),
            );
            assert(client::stream_head(head) == client::StreamHeadView::Refused(503));
        }
        json_response(503, "Service Unavailable", body.as_str(), "")
    }

    /// The microphone is open: the head of the answer, with the token where one
    /// was issued, and the header of the stream. A client reads from them that
    /// the stream follows, the token, and the rate if it is one that clients
    /// accept.
    pub fn capture_started(&mut self, claim: &Claim, device: String, rate: u32) -> (r: (
        String,
        Vec<u8>,
    ))
        ensures
            final(self)@ == (ServerView {
                last_device: device@,
                last_rate: rate,
                error: None,
                ..old(self)@
            }),
            r.0@ == http::head_text(http::stream_response_lines(claim.issued())),
            r.1@ == wire::header_bytes(rate),
            client::stream_head(r.0@) == client::StreamHeadView::Open(found_token(claim.issued())),
            client::MIN_RATE <= rate <= client::MAX_RATE ==> client::announced_rate(r.1@) == Ok::<
                u32,
                client::OpenErrView,
            >(rate),
    {
        proof {
            use_type_invariant(claim);
            wire::law_header_reads_back(rate);
            http::law_stream_response_reads_back(claim.issued());
        }
        self.last_device = device;
        self.last_rate = rate;
        self.error = None;
        (stream_response(claim.token.as_str()), stream_header(rate))
    }

    /// Whether a session has to end, and why.
    pub fn end_of(&self, id: u64) -> (r: Option<u32>)
        ensures
            r == self@.end_of(id),
    {
        if self.stop {
            return Some(END_SERVER_CLOSING);
        }
        let mine = match &self.session {
            Some(s) => s.id == id,
            None => false,
        };
        if mine {
            None
        } else {
            Some(END_PREEMPTED)
        }
    }

    /// A session is over: its level is forgotten, and the microphone is free
    /// unless another session has it.
    pub fn finish(&mut self, id: u64)
        ensures
            final(self)@ == (ServerView {
                meter: audio::MeterView {
                    level: 0,
                    wave: Seq::empty(),
                    seq: old(self)@.meter.seq,
                },
                ..old(self)@
            }).released(id),
    {
        self.meter.reset();
        self.release(id);
    }
}

proof fn lemma_health_names(
    v: ServerView,
    alias: Seq<char>,
    device_type: Seq<char>,
    device_id: Seq<char>,
)
    ensures
        json::distinct_names(v.health_members(alias, device_type, device_id)),
{
    reveal_strlit("status");
    reveal_strlit("app");
    reveal_strlit("streaming");
    reveal_strlit("client");
    reveal_strlit("sample_rate");
    reveal_strlit("alias");
    reveal_strlit("device_type");
    reveal_strlit("device_id");
    assert("app"@.len() == 3 && "alias"@.len() == 5);
    assert("status"@.len() == 6 && "client"@.len() == 6);
    assert("status"@[0] == 's' && "client"@[0] == 'c');
    assert("streaming"@.len() == 9 && "device_id"@.len() == 9);
    assert("streaming"@[0] == 's' && "device_id"@[0] == 'd');
    assert("sample_rate"@.len() == 11 && "device_type"@.len() == 11);
    assert("sample_rate"@[0] == 's' && "device_type"@[0] == 'd');
}

proof fn lemma_health_members(
    v: ServerView,
    alias: Seq<char>,
    device_type: Seq<char>,
    device_id: Seq<char>,
)
    ensures
        ({
            let o = json::object_of(v.health_members(alias, device_type, device_id));
            &&& json::text_at(o, "app"@) == Some("micsync"@)
            &&& json::text_at(o, "alias"@) == Some(alias)
            &&& json::text_at(o, "device_type"@) == Some(device_type)
            &&& json::text_at(o, "device_id"@) == Some(device_id)
        }),
{
    let none: json::Members = Seq::empty();
    let m1 = none.push(("status"@, json::LeafView::Text("ok"@)));
    let m2 = m1.push(("app"@, json::LeafView::Text("micsync"@)));
    let m3 = m2.push(("streaming"@, json::LeafView::Flag(v.session is Some)));
    let m4 = m3.push(("client"@, json::LeafView::Text(v.client())));
    let m5 = m4.push(("sample_rate"@, json::LeafView::Number(v.last_rate as u64)));
    let m6 = m5.push(("alias"@, json::LeafView::Text(alias)));
    let m7 = m6.push(("device_type"@, json::LeafView::Text(device_type)));
    let m8 = m7.push(("device_id"@, json::LeafView::Text(device_id)));
    assert(m8 =~= v.health_members(alias, device_type, device_id));
    json::lemma_object_push(m1, "app"@, json::LeafView::Text("micsync"@));
    json::lemma_object_push(m2, "streaming"@, json::LeafView::Flag(v.session is Some));
    json::lemma_object_push(m3, "client"@, json::LeafView::Text(v.client()));
    json::lemma_object_push(m4, "sample_rate"@, json::LeafView::Number(v.last_rate as u64));
    json::lemma_object_push(m5, "alias"@, json::LeafView::Text(alias));
    json::lemma_object_push(m6, "device_type"@, json::LeafView::Text(device_type));
    json::lemma_object_push(m7, "device_id"@, json::LeafView::Text(device_id));
    reveal_strlit("app");
    reveal_strlit("streaming");
    reveal_strlit("client");
    reveal_strlit("sample_rate");
    reveal_strlit("alias");
    reveal_strlit("device_type");
    reveal_strlit("device_id");
    assert("app"@.len() == 3 && "alias"@.len() == 5 && "client"@.len() == 6);
    assert("streaming"@.len() == 9 && "device_id"@.len() == 9);
    assert("device_type"@.len() == 11 && "sample_rate"@.len() == 11);
    let o = json::object_of(m8);
    assert(o.dom().contains("app"@) && o["app"@] == json::LeafView::Text("micsync"@));
    assert(o.dom().contains("alias"@) && o["alias"@] == json::LeafView::Text(alias));
    assert(o.dom().contains("device_type"@) && o["device_type"@] == json::LeafView::Text(
        device_type,
    ));
}

/// A server understands a client's request for the microphone: what is asked
/// for, the device's name, which is clean as every device's is, and its token.
pub proof fn law_consent_request_is_understood(
    kind: Kind,
    host: Seq<char>,
    raw_name: Seq<char>,
    token: Seq<char>,
)
    requires
        http::one_line(host),
        proper_token(token),
    ensures
        request_in(
            http::head_text(
                http::request_lines(
                    seq!['/'] + kind.word(),
                    host,
                    settings::clean_name(raw_name),
                    token,
                ),
            ),
        ) == (RequestView::Consent { kind, name: settings::clean_name(raw_name), token }),
{
    let name = settings::clean_name(raw_name);
    let path = seq!['/'] + kind.word();
    reveal_strlit("stream");
    reveal_strlit("authorize");
    reveal_strlit("/stream");
    reveal_strlit("/authorize");
    reveal_strlit("/health");
    assert(path.len() > 0);
    assert(text::is_word(path));
    assert(!path.contains('?'));
    settings::law_clean_name_is_safe(raw_name);
    settings::law_clean_name_is_stable(raw_name);
    http::law_request_reads_back(path, host, name, token);
    assert(kind == Kind::Stream ==> path =~= "/stream"@);
    assert(kind == Kind::Authorize ==> path =~= "/authorize"@);
    assert("/health"@.len() == 7 && "/stream"@[1] == 's' && "/health"@[1] == 'h');
    assert("/authorize"@.len() == 10);
    if token.len() == 0 {
        assert(token =~= Seq::<char>::empty());
    }
}

/// A token that the server issues makes the round: it is 32 characters and
/// survives in a header, the client finds it in the answer that opens the stream
/// and in the one that grants an authorization, and the server finds it in every
/// request that the client then makes.
pub proof fn law_issued_token_makes_the_round(first: u64, second: u64)
    ensures
        ({
            let token = settings::identifier(first, second);
            &&& token.len() == 32
            &&& proper_token(token)
            &&& client::stream_head(http::head_text(http::stream_response_lines(token)))
                == client::StreamHeadView::Open(Some(token))
            &&& client::preauth_token(
                response(200, "OK"@, json::json_text(authorized_members()), token),
            ) == Some(token)
            &&& forall|kind: Kind, host: Seq<char>, raw_name: Seq<char>|
                http::one_line(host) ==> #[trigger] request_in(
                    http::head_text(
                        http::request_lines(
                            seq!['/'] + kind.word(),
                            host,
                            settings::clean_name(raw_name),
                            token,
                        ),
                    ),
                ) == (RequestView::Consent { kind, name: settings::clean_name(raw_name), token })
        }),
{
    let token = settings::identifier(first, second);
    settings::law_identifiers_are_distinct(first, second, first, second);
    http::law_stream_response_reads_back(token);
    reveal_strlit("OK");
    http::law_response_reads_back(200, "OK"@, json::json_text(authorized_members()), token);
    assert forall|kind: Kind, host: Seq<char>, raw_name: Seq<char>|
        http::one_line(host) implies #[trigger] request_in(
        http::head_text(
            http::request_lines(
                seq!['/'] + kind.word(),
                host,
                settings::clean_name(raw_name),
                token,
            ),
        ),
    ) == (RequestView::Consent { kind, name: settings::clean_name(raw_name), token }) by {
        law_consent_request_is_understood(kind, host, raw_name, token);
    }
}

/// The session that has the microphone, if there is one, was numbered last.
pub open spec fn numbered(v: ServerView) -> bool {
    v.session matches Some(s) ==> after_number(s.id) == v.next_id
}

/// The session that has the microphone is always the one that was numbered last:
/// it is so of a server that begins to listen, and it stays so whatever happens.
pub proof fn law_session_is_numbered_last(
    v: ServerView,
    port: u16,
    device: Option<Seq<char>>,
    addr: Seq<char>,
    id: u64,
)
    requires
        numbered(v),
    ensures
        numbered(listening(port, device)),
        numbered(v.claimed(addr)),
        numbered(v.released(id)),
        forall|w: ServerView|
            w.session == v.session && w.next_id == v.next_id ==> #[trigger] numbered(w),
{
}

/// The newest request has the microphone: the session that had it, and every
/// other one, has to end as taken over, and the new one may go on.
pub proof fn law_newest_request_takes_over(v: ServerView, old_id: u64, addr: Seq<char>)
    requires
        !v.stopped,
        numbered(v),
    ensures
        v.has(old_id) ==> v.claimed(addr).end_of(old_id) == Some(END_PREEMPTED),
        old_id != v.next_id ==> v.claimed(addr).end_of(old_id) == Some(END_PREEMPTED),
        v.claimed(addr).end_of(v.next_id) is None,
        v.claimed(addr).client() == addr,
{
}

/// The end of a session that was taken over leaves the new session alone, and
/// the end of the session that has the microphone frees it.
pub proof fn law_release_frees_only_its_own(v: ServerView, id: u64)
    ensures
        !v.has(id) ==> v.released(id) == v,
        v.has(id) ==> v.released(id).session is None,
{
    assert(!v.has(id) ==> v.released(id) =~= v);
}

/// Only one session at a time may go on.
pub proof fn law_one_session_at_a_time(v: ServerView, a: u64, b: u64)
    requires
        v.end_of(a) is None,
        v.end_of(b) is None,
    ensures
        a == b,
{
}

/// When the server stops, every session is told that it closes.
pub proof fn law_stop_ends_every_session(v: ServerView, id: u64)
    ensures
        (ServerView { stopped: true, ..v }).end_of(id) == Some(END_SERVER_CLOSING),
{
}

// ---------------------------------------------------------------------------
// Consent
// ---------------------------------------------------------------------------

/// The first place whose value passes a test.
pub open spec fn first_where<T>(s: Seq<T>, test: spec_fn(T) -> bool) -> Option<int>
    decreases s.len(),
{
    if s.len() == 0 {
        None
    } else if test(s[0]) {
        Some(0int)
    } else {
        match first_where(s.skip(1), test) {
            Some(i) => Some(i + 1),
            None => None,
        }
    }
}

/// The first place is a place, its value passes, and none before it does.
pub proof fn lemma_first_where<T>(s: Seq<T>, test: spec_fn(T) -> bool)
    ensures
        match first_where(s, test) {
            Some(i) => 0 <= i < s.len() && test(s[i]) && forall|j: int|
                0 <= j < i ==> !test(#[trigger] s[j]),
            None => forall|j: int| 0 <= j < s.len() ==> !test(#[trigger] s[j]),
        },
    decreases s.len(),
{
    if s.len() > 0 && !test(s[0]) {
        let rest = s.skip(1);
        lemma_first_where(rest, test);
        match first_where(rest, test) {
            Some(i) => {
                assert(rest[i] == s[i + 1]);
                assert forall|j: int| 0 <= j < i + 1 implies !test(#[trigger] s[j]) by {
                    if j > 0 {
                        assert(s[j] == rest[j - 1]);
                    }
                }
            },
            None => {
                assert forall|j: int| 0 <= j < s.len() implies !test(#[trigger] s[j]) by {
                    if j > 0 {
                        assert(s[j] == rest[j - 1]);
                    }
                }
            },
        }
    }
}

proof fn lemma_first_where_at<T>(s: Seq<T>, test: spec_fn(T) -> bool, i: int)
    requires
        0 <= i < s.len(),
        test(s[i]),
        forall|j: int| 0 <= j < i ==> !test(#[trigger] s[j]),
    ensures
        first_where(s, test) == Some(i),
{
    lemma_first_where(s, test);
    match first_where(s, test) {
        Some(k) => {
            if k < i {
                assert(!test(s[k]));
            } else if i < k {
                assert(!test(s[i]));
            }
        },
        None => {
            assert(!test(s[i]));
        },
    }
}

/// The owner has not answered the request.
pub open spec fn undecided() -> spec_fn(WaitingView) -> bool {
    |w: WaitingView| w.decision is None
}

/// The request has the ticket.
pub open spec fn ticketed(ticket: u64) -> spec_fn(WaitingView) -> bool {
    |w: WaitingView| w.ticket == ticket
}

/// The hosts without one.
pub open spec fn without_host(hosts: Seq<Seq<char>>, host: Seq<char>) -> Seq<Seq<char>> {
    hosts.filter(|h: Seq<char>| h != host)
}

/// The hosts with one more; none stands there twice.
pub open spec fn with_host(hosts: Seq<Seq<char>>, host: Seq<char>) -> Seq<Seq<char>> {
    if hosts.contains(host) {
        hosts
    } else {
        hosts.push(host)
    }
}

/// A request for consent.
pub struct Asked {
    pub kind: Kind,
    pub name: Seq<char>,
    pub token: Seq<char>,
    pub addr: Seq<char>,
    pub host: Seq<char>,
}

impl ServerView {
    /// A request needs no answer of the owner: it brings a trusted token, or it
    /// is for the stream and its host was allowed once.
    pub open spec fn admits(self, trusted: Seq<TrustedView>, a: Asked) -> bool {
        settings::trusts(trusted, a.token) || (a.kind == Kind::Stream && self.passes.contains(
            a.host,
        ))
    }

    /// After a request has come in. One that needs the owner waits; being
    /// allowed once is used up; a trusted token leaves everything as it is.
    pub open spec fn asked(self, trusted: Seq<TrustedView>, a: Asked) -> ServerView {
        if settings::trusts(trusted, a.token) {
            self
        } else if self.admits(trusted, a) {
            ServerView { passes: without_host(self.passes, a.host), ..self }
        } else {
            ServerView {
                waiting: self.waiting.push(
                    WaitingView {
                        ticket: self.next_ticket,
                        kind: a.kind,
                        name: settings::clean_name(a.name),
                        addr: a.addr,
                        host: a.host,
                        decision: None,
                    },
                ),
                next_ticket: after_number(self.next_ticket),
                ..self
            }
        }
    }

    /// The request that the owner sees: the oldest without an answer.
    pub open spec fn pending(self) -> Option<WaitingView> {
        match first_where(self.waiting, undecided()) {
            Some(i) => Some(self.waiting[i]),
            None => None,
        }
    }

    /// After the owner has answered: the answer goes to the request that the
    /// owner sees.
    pub open spec fn decided(self, d: Decision) -> ServerView {
        match first_where(self.waiting, undecided()) {
            Some(i) => ServerView {
                waiting: self.waiting.update(
                    i,
                    WaitingView { decision: Some(d), ..self.waiting[i] },
                ),
                ..self
            },
            None => self,
        }
    }
}

/// What becomes of a request that waits.
pub enum Outcome {
    /// It waits on.
    Waits,
    /// The client is gone, or the server stops: nobody is there to be answered.
    Gone,
    /// The owner refused.
    Refused,
    /// The owner did not answer in time.
    TimedOut,
    /// The owner agreed, for once or for good.
    Agreed(Decision),
}

/// What becomes of a request that waits, by the owner's answer, how long it has
/// waited, how long the client has been silent and whether it is gone. A request
/// for the stream is refused when time is up; one for an authorization waits as
/// long as the client does.
pub open spec fn outcome_of(
    w: WaitingView,
    stopped: bool,
    waited_ms: u64,
    silent_ms: u64,
    gone: bool,
) -> Outcome {
    if gone || stopped {
        Outcome::Gone
    } else {
        match w.decision {
            Some(Decision::Deny) => Outcome::Refused,
            Some(d) => Outcome::Agreed(d),
            None => if w.kind == Kind::Stream && waited_ms >= CONSENT_MS {
                Outcome::TimedOut
            } else if w.kind == Kind::Authorize && silent_ms >= SILENCE_MS {
                Outcome::Gone
            } else {
                Outcome::Waits
            },
        }
    }
}

/// How a request stands.
pub enum Admission {
    /// The stream may be claimed.
    Granted(Grant),
    /// The authorization stands.
    Authorized,
    /// The owner has to agree first; the ticket names the request.
    Held(u64),
}

/// What became of a request that waited.
pub enum Verdict {
    /// It waits on.
    Waits,
    /// Nobody is there to be answered.
    Gone,
    /// Refused, with a message.
    Denied(String),
    /// The stream may be claimed.
    Granted(Grant),
    /// The authorization is granted, with a token that is empty where none was
    /// issued.
    Authorized(String),
}

/// The message to a client whose request the owner refused.
pub open spec fn refused_message() -> Seq<char> {
    "对方拒绝了本次麦克风使用请求"@
}

/// The message to a client whose request the owner did not answer in time.
pub open spec fn timeout_message() -> Seq<char> {
    "对方未在 30 秒内确认,请求已自动拒绝"@
}

/// The verdict that an outcome comes to. The token goes to a client that the
/// owner trusts from now on.
pub open spec fn verdict_is(r: Verdict, kind: Kind, outcome: Outcome, token: Seq<char>) -> bool {
    match outcome {
        Outcome::Waits => r is Waits,
        Outcome::Gone => r is Gone,
        Outcome::Refused => r matches Verdict::Denied(m) && m@ == refused_message(),
        Outcome::TimedOut => r matches Verdict::Denied(m) && m@ == timeout_message(),
        Outcome::Agreed(d) => {
            let issued = if d == Decision::Always {
                token
            } else {
                Seq::empty()
            };
            match kind {
                Kind::Stream => r matches Verdict::Granted(g) && g.issued() == issued,
                Kind::Authorize => r matches Verdict::Authorized(t) && t@ == issued,
            }
        },
    }
}

impl ServerView {
    /// After a look at the request at a place: one that does not wait on leaves,
    /// and an authorization for once leaves a pass for its host.
    pub open spec fn settled(self, i: int, outcome: Outcome) -> ServerView {
        let w = self.waiting[i];
        match outcome {
            Outcome::Waits => self,
            Outcome::Agreed(d) => ServerView {
                waiting: self.waiting.remove(i),
                passes: if d == Decision::Once && w.kind == Kind::Authorize {
                    with_host(self.passes, w.host)
                } else {
                    self.passes
                },
                ..self
            },
            _ => ServerView { waiting: self.waiting.remove(i), ..self },
        }
    }
}

/// The settings after an outcome: "always" trusts the client by a new token.
pub open spec fn trusting(
    s: SettingsView,
    w: WaitingView,
    outcome: Outcome,
    token: Seq<char>,
    now: u64,
) -> SettingsView {
    match outcome {
        Outcome::Agreed(Decision::Always) => SettingsView {
            trusted: s.trusted.push(
                TrustedView { token, name: settings::clean_name(w.name), added_at: now },
            ),
            ..s
        },
        _ => s,
    }
}

impl ServerHandle {
    /// A request for the microphone comes in; the name that the device gives
    /// itself is cleaned. The request is granted at once where it brings a
    /// trusted token, or where its host was allowed once; else it waits for the
    /// owner. The microphone is not touched.
    pub fn ask(
        &mut self,
        store: &mut Store,
        kind: Kind,
        name: String,
        token: &str,
        addr: String,
        host: String,
    ) -> (r: Admission)
        ensures
            ({
                let a = Asked { kind, name: name@, token: token@, addr: addr@, host: host@ };
                let trusted = old(store).settings@.trusted;
                &&& final(self)@ == old(self)@.asked(trusted, a)
                &&& final(store).settings@ == (SettingsView {
                    trusted: settings::seen_as(trusted, token@, settings::clean_name(name@)),
                    ..old(store).settings@
                })
                &&& final(store).unsaved == (old(store).unsaved || settings::seen_as(
                    trusted,
                    token@,
                    settings::clean_name(name@),
                ) != trusted)
                &&& if old(self)@.admits(trusted, a) {
                    match kind {
                        Kind::Stream => r matches Admission::Granted(g) && g.issued()
                            == Seq::<char>::empty(),
                        Kind::Authorize => r is Authorized,
                    }
                } else {
                    r == Admission::Held(old(self)@.next_ticket)
                }
            }),
    {
        let ghost before = self@;
        let ghost trusted = store.settings@.trusted;
        let ghost a = Asked { kind, name: name@, token: token@, addr: addr@, host: host@ };
        let name = sanitize_name(name.as_str());
        if trusted_by_token(store, token, name.as_str()) {
            return let_in(kind);
        }
        let stream = match kind {
            Kind::Stream => true,
            Kind::Authorize => false,
        };
        if stream && holds_host(&self.passes, host.as_str()) {
            self.passes = drop_host(&self.passes, host.as_str());
            assert(self@ =~= before.asked(trusted, a));
            return let_in(kind);
        }
        let ticket: u64 = self.next_ticket;
        self.next_ticket = ticket.wrapping_add(1);
        self.waiting.push(Waiting { ticket, kind, name, addr, host, decision: None });
        assert(self@.waiting =~= before.asked(trusted, a).waiting);
        Admission::Held(ticket)
    }

    fn undecided_at(&self) -> (r: Option<usize>)
        ensures
            match r {
                Some(i) => first_where(self@.waiting, undecided()) == Some(i as int) && i
                    < self.waiting@.len(),
                None => first_where(self@.waiting, undecided()) is None,
            },
    {
        let count: usize = self.waiting.len();
        let mut i: usize = 0;
        while i < count
            invariant
                count == self.waiting@.len(),
                i <= count,
                forall|j: int| 0 <= j < i ==> !undecided()(#[trigger] self@.waiting[j]),
            decreases count - i,
        {
            if self.waiting[i].decision.is_none() {
                proof {
                    assert(undecided()(self@.waiting[i as int]));
                    lemma_first_where_at(self@.waiting, undecided(), i as int);
                }
                return Some(i);
            }
            assert(!undecided()(self@.waiting[i as int]));
            i = i + 1;
        }
        proof {
            lemma_first_where(self@.waiting, undecided());
        }
        None
    }

    fn ticket_at(&self, ticket: u64) -> (r: Option<usize>)
        ensures
            match r {
                Some(i) => first_where(self@.waiting, ticketed(ticket)) == Some(i as int) && i
                    < self.waiting@.len(),
                None => first_where(self@.waiting, ticketed(ticket)) is None,
            },
    {
        let count: usize = self.waiting.len();
        let mut i: usize = 0;
        while i < count
            invariant
                count == self.waiting@.len(),
                i <= count,
                forall|j: int| 0 <= j < i ==> !ticketed(ticket)(#[trigger] self@.waiting[j]),
            decreases count - i,
        {
            if self.waiting[i].ticket == ticket {
                proof {
                    assert(ticketed(ticket)(self@.waiting[i as int]));
                    lemma_first_where_at(self@.waiting, ticketed(ticket), i as int);
                }
                return Some(i);
            }
            assert(!ticketed(ticket)(self@.waiting[i as int]));
            i = i + 1;
        }
        proof {
            lemma_first_where(self@.waiting, ticketed(ticket));
        }
        None
    }

    /// The request that the owner has to answer: the device's name, its address,
    /// and what it asks for.
    pub fn pending(&self) -> (r: Option<(String, String, Kind)>)
        ensures
            match r {
                Some((name, addr, kind)) => self@.pending() matches Some(w) && w.name == name@
                    && w.addr == addr@ && w.kind == kind,
                None => self@.pending() is None,
            },
    {
        match self.undecided_at() {
            Some(i) => {
                assert(self@.waiting[i as int] == self.waiting@[i as int]@);
                Some(
                    (
                        self.waiting[i].name.clone(),
                        self.waiting[i].addr.clone(),
                        self.waiting[i].kind,
                    ),
                )
            },
            None => None,
        }
    }

    /// The owner answers the request that is pending.
    pub fn decide(&mut self, decision: Decision)
        ensures
            final(self)@ == old(self)@.decided(decision),
    {
        let ghost before = self@;
        match self.undecided_at() {
            Some(i) => {
                let answered = Waiting {
                    ticket: self.waiting[i].ticket,
                    kind: self.waiting[i].kind,
                    name: self.waiting[i].name.clone(),
                    addr: self.waiting[i].addr.clone(),
                    host: self.waiting[i].host.clone(),
                    decision: Some(decision),
                };
                self.waiting.set(i, answered);
                assert(self@.waiting =~= before.decided(decision).waiting);
            },
            None => {},
        }
    }

    /// Looks after a request that waits: how long it has waited, how long the
    /// client has been silent and whether it is gone. `first` and `second` were
    /// drawn for the token that the client gets if the owner trusts it from now
    /// on. Every token that is handed out survives in a header.
    pub fn settle(
        &mut self,
        store: &mut Store,
        ticket: u64,
        waited_ms: u64,
        silent_ms: u64,
        gone: bool,
        first: u64,
        second: u64,
        now: u64,
    ) -> (r: Verdict)
        ensures
            match r {
                Verdict::Granted(g) => proper_token(g.issued()),
                Verdict::Authorized(t) => proper_token(t@),
                _ => true,
            },
            match first_where(old(self)@.waiting, ticketed(ticket)) {
                Some(i) => {
                    let w = old(self)@.waiting[i];
                    let outcome = outcome_of(w, old(self)@.stopped, waited_ms, silent_ms, gone);
                    &&& verdict_is(r, w.kind, outcome, settings::identifier(first, second))
                    &&& final(self)@ == old(self)@.settled(i, outcome)
                    &&& final(store).settings@ == trusting(
                        old(store).settings@,
                        w,
                        outcome,
                        settings::identifier(first, second),
                        now,
                    )
                    &&& final(store).unsaved == (old(store).unsaved || outcome
                        == Outcome::Agreed(Decision::Always))
                },
                None => r is Gone && final(self)@ == old(self)@ && *final(store) == *old(store),
            },
    {
        let ghost before = self@;
        let ghost kept = store.settings@;
        let at = self.ticket_at(ticket);
        let i: usize = match at {
            Some(i) => i,
            None => {
                return Verdict::Gone;
            },
        };
        let ghost w = before.waiting[i as int];
        let ghost outcome = outcome_of(w, before.stopped, waited_ms, silent_ms, gone);
        assert(w == self.waiting@[i as int]@);
        if gone || self.stop {
            self.waiting.remove(i);
            assert(self@.waiting =~= before.waiting.remove(i as int));
            return Verdict::Gone;
        }
        let kind = self.waiting[i].kind;
        match self.waiting[i].decision {
            Some(Decision::Deny) => {
                self.waiting.remove(i);
                assert(self@.waiting =~= before.waiting.remove(i as int));
                Verdict::Denied("对方拒绝了本次麦克风使用请求".to_string())
            },
            Some(Decision::Once) => {
                let request = self.waiting.remove(i);
                assert(self@.waiting =~= before.waiting.remove(i as int));
                match kind {
                    Kind::Stream => Verdict::Granted(Grant { token: String::new() }),
                    Kind::Authorize => {
                        let host = request.host;
                        if !holds_host(&self.passes, host.as_str()) {
                            self.passes.push(host);
                        }
                        assert(self@.passes =~= with_host(before.passes, w.host));
                        Verdict::Authorized(String::new())
                    },
                }
            },
            Some(Decision::Always) => {
                let request = self.waiting.remove(i);
                assert(self@.waiting =~= before.waiting.remove(i as int));
                let issued = trust_client(store, request.name.as_str(), first, second, now);
                proof {
                    law_issued_token_makes_the_round(first, second);
                }
                match kind {
                    Kind::Stream => Verdict::Granted(Grant { token: issued }),
                    Kind::Authorize => Verdict::Authorized(issued),
                }
            },
            None => {
                match kind {
                    Kind::Stream => {
                        if waited_ms >= CONSENT_MS {
                            self.waiting.remove(i);
                            assert(self@.waiting =~= before.waiting.remove(i as int));
                            return Verdict::Denied(
                                "对方未在 30 秒内确认,请求已自动拒绝".to_string(),
                            );
                        }
                    },
                    Kind::Authorize => {
                        if silent_ms >= SILENCE_MS {
                            self.waiting.remove(i);
                            assert(self@.waiting =~= before.waiting.remove(i as int));
                            return Verdict::Gone;
                        }
                    },
                }
                Verdict::Waits
            },
        }
    }
}

fn let_in(kind: Kind) -> (r: Admission)
    ensures
        match kind {
            Kind::Stream => r matches Admission::Granted(g) && g.issued() == Seq::<char>::empty(),
            Kind::Authorize => r is Authorized,
        },
{
    match kind {
        Kind::Stream => Admission::Granted(Grant { token: String::new() }),
        Kind::Authorize => Admission::Authorized,
    }
}

fn holds_host(hosts: &Vec<String>, host: &str) -> (r: bool)
    ensures
        r == text::text_views(hosts@).contains(host@),
{
    let ghost views = text::text_views(hosts@);
    let count: usize = hosts.len();
    let mut i: usize = 0;
    while i < count
        invariant
            count == hosts@.len(),
            i <= count,
            views == text::text_views(hosts@),
            forall|j: int| 0 <= j < i ==> (#[trigger] views[j]) != host@,
        decreases count - i,
    {
        if same_text(hosts[i].as_str(), host) {
            assert(views[i as int] == host@);
            return true;
        }
        assert(views[i as int] != host@);
        i = i + 1;
    }
    false
}

fn drop_host(hosts: &Vec<String>, host: &str) -> (r: Vec<String>)
    ensures
        text::text_views(r@) == without_host(text::text_views(hosts@), host@),
{
    let ghost views = text::text_views(hosts@);
    let ghost keep = |h: Seq<char>| h != host@;
    let mut kept: Vec<String> = Vec::new();
    let count: usize = hosts.len();
    let mut i: usize = 0;
    proof {
        reveal(Seq::filter);
        assert(views.take(0) =~= Seq::<Seq<char>>::empty());
        assert(text::text_views(kept@) =~= views.take(0).filter(keep));
    }
    while i < count
        invariant
            count == hosts@.len(),
            i <= count,
            views == text::text_views(hosts@),
            keep == (|h: Seq<char>| h != host@),
            text::text_views(kept@) == views.take(i as int).filter(keep),
        decreases count - i,
    {
        let ghost before = text::text_views(kept@);
        proof {
            reveal(Seq::filter);
            assert(views.take(i + 1).drop_last() =~= views.take(i as int));
            assert(views.take(i + 1).last() == views[i as int]);
        }
        if !same_text(hosts[i].as_str(), host) {
            kept.push(hosts[i].clone());
            assert(text::text_views(kept@) =~= before.push(views[i as int]));
        }
        i = i + 1;
    }
    assert(views.take(count as int) =~= views);
    kept
}

/// Nothing touches the microphone before the owner has agreed: whatever a
/// request, the owner or the clock does, no session begins or ends, and neither
/// the level nor what was captured last changes.
pub proof fn law_asking_touches_no_microphone(
    v: ServerView,
    trusted: Seq<TrustedView>,
    a: Asked,
    d: Decision,
    i: int,
    outcome: Outcome,
)
    ensures
        forall|after: ServerView|
            (after == v.asked(trusted, a) || after == v.decided(d) || after == v.settled(
                i,
                outcome,
            )) ==> (#[trigger] after.session) == v.session && after.next_id == v.next_id
                && after.meter == v.meter && after.last_device == v.last_device && after.last_rate
                == v.last_rate,
{
}

/// A request without a trusted token and without having been allowed once waits
/// for the owner, and is what the owner sees unless an older one is.
pub proof fn law_unapproved_request_is_held(v: ServerView, trusted: Seq<TrustedView>, a: Asked)
    requires
        !v.admits(trusted, a),
    ensures
        v.asked(trusted, a).waiting.len() == v.waiting.len() + 1,
        v.pending() is None ==> (v.asked(trusted, a).pending() matches Some(w) && w.name
            == settings::clean_name(a.name) && w.addr == a.addr && w.kind == a.kind),
        v.pending() is Some ==> v.asked(trusted, a).pending() == v.pending(),
{
    let list = v.waiting;
    let more = v.asked(trusted, a).waiting;
    lemma_first_where(list, undecided());
    match first_where(list, undecided()) {
        Some(i) => {
            assert(more[i] == list[i]);
            assert forall|j: int| 0 <= j < i implies !undecided()(#[trigger] more[j]) by {
                assert(more[j] == list[j]);
            }
            lemma_first_where_at(more, undecided(), i);
        },
        None => {
            assert forall|j: int| 0 <= j < list.len() implies !undecided()(#[trigger] more[j]) by {
                assert(more[j] == list[j]);
            }
            assert(undecided()(more[list.len() as int]));
            lemma_first_where_at(more, undecided(), list.len() as int);
        },
    }
}

/// Without the owner's consent no request that waits is ever granted, and a
/// request for the stream that is not answered in time is refused.
pub proof fn law_no_consent_no_stream(
    w: WaitingView,
    stopped: bool,
    waited_ms: u64,
    silent_ms: u64,
    gone: bool,
)
    ensures
        outcome_of(w, stopped, waited_ms, silent_ms, gone) is Agreed ==> w.decision == Some(
            Decision::Once,
        ) || w.decision == Some(Decision::Always),
        w.decision == Some(Decision::Deny) ==> !(outcome_of(
            w,
            stopped,
            waited_ms,
            silent_ms,
            gone,
        ) is Waits),
        w.kind == Kind::Stream && waited_ms >= CONSENT_MS ==> !(outcome_of(
            w,
            stopped,
            waited_ms,
            silent_ms,
            gone,
        ) is Waits),
{
}

/// The owner's answer goes to the request that the owner sees, and to no other.
pub proof fn law_answer_goes_to_the_pending_request(v: ServerView, d: Decision, i: int)
    requires
        0 <= i < v.waiting.len(),
    ensures
        v.decided(d).waiting.len() == v.waiting.len(),
        v.decided(d).waiting[i].decision == (if first_where(v.waiting, undecided()) == Some(i) {
            Some(d)
        } else {
            v.waiting[i].decision
        }),
{
    lemma_first_where(v.waiting, undecided());
}

/// A client that the owner always allows is let in from then on without being
/// asked about, by the token that it was given.
pub proof fn law_always_means_never_asked_again(
    s: SettingsView,
    w: WaitingView,
    first: u64,
    second: u64,
    now: u64,
    v: ServerView,
    a: Asked,
)
    requires
        a.token == settings::identifier(first, second),
    ensures
        v.admits(trusting(s, w, Outcome::Agreed(Decision::Always), a.token, now).trusted, a),
        v.asked(trusting(s, w, Outcome::Agreed(Decision::Always), a.token, now).trusted, a) == v,
{
    settings::law_identifiers_are_distinct(first, second, first, second);
    settings::law_trusted_client_is_let_in(
        s.trusted,
        a.token,
        settings::clean_name(w.name),
        now,
    );
}

/// A host that was allowed once gets the stream once: the first request uses the
/// pass up, and the next one has to wait for the owner.
pub proof fn law_once_means_once(v: ServerView, trusted: Seq<TrustedView>, a: Asked, host: Seq<char>)
    requires
        a.kind == Kind::Stream,
        a.host == host,
        !settings::trusts(trusted, a.token),
    ensures
        (ServerView { passes: with_host(v.passes, host), ..v }).admits(trusted, a),
        !(ServerView { passes: with_host(v.passes, host), ..v }).asked(trusted, a).admits(
            trusted,
            a,
        ),
{
    let hosts = with_host(v.passes, host);
    let keep = |h: Seq<char>| h != host;
    assert(hosts.contains(host)) by {
        if !v.passes.contains(host) {
            assert(hosts[v.passes.len() as int] == host);
        }
    }
    let left = without_host(hosts, host);
    if left.contains(host) {
        let i = choose|i: int| 0 <= i < left.len() && left[i] == host;
        hosts.lemma_filter_pred(keep, i);
        assert(keep(left[i]));
    }
}

/// What a device calls itself, and the port that it comes from, have no say in
/// whether it is let in.
pub proof fn law_names_let_nobody_in(
    v: ServerView,
    trusted: Seq<TrustedView>,
    a: Asked,
    name: Seq<char>,
    addr: Seq<char>,
)
    ensures
        v.admits(trusted, a) == v.admits(trusted, Asked { name, addr, ..a }),
{
}

/// A trusted client whose token was revoked has to wait for the owner again.
pub proof fn law_revoked_client_is_asked_about(
    v: ServerView,
    trusted: Seq<TrustedView>,
    a: Asked,
)
    requires
        !v.passes.contains(a.host),
    ensures
        !v.admits(settings::revoked(trusted, a.token), a),
{
    settings::law_revoked_token_is_refused(trusted, a.token);
}

/// What the server tells everybody about itself rests on nothing but who has the
/// microphone and the rate of the last session: no token, no pass and no request
/// can be read from it.
pub proof fn law_health_tells_no_secret(
    v: ServerView,
    w: ServerView,
    alias: Seq<char>,
    device_type: Seq<char>,
    device_id: Seq<char>,
)
    requires
        v.session == w.session,
        v.last_rate == w.last_rate,
    ensures
        v.health_members(alias, device_type, device_id) == w.health_members(
            alias,
            device_type,
            device_id,
        ),
{
}

/// The requests that wait have cleaned names and tickets of their own, each given
/// out before.
pub open spec fn orderly(v: ServerView) -> bool {
    &&& forall|i: int|
        0 <= i < v.waiting.len() ==> clean((#[trigger] v.waiting[i]).name) && v.waiting[i].ticket
            < v.next_ticket
    &&& forall|i: int, j: int|
        0 <= i < j < v.waiting.len() ==> (#[trigger] v.waiting[i]).ticket != (#[trigger]
        v.waiting[j]).ticket
}

/// A name fit to be shown: short and without control characters.
pub open spec fn clean(name: Seq<char>) -> bool {
    &&& name.len() <= settings::MAX_NAME_LEN
    &&& forall|i: int| 0 <= i < name.len() ==> !text::control(#[trigger] name[i])
}

/// Requests are orderly when a server begins to listen and stay so whatever
/// happens, as long as tickets do not run out: the owner never sees an unclean
/// name, and no answer goes astray.
pub proof fn law_requests_stay_orderly(
    port: u16,
    device: Option<Seq<char>>,
    v: ServerView,
    trusted: Seq<TrustedView>,
    a: Asked,
    d: Decision,
    i: int,
    outcome: Outcome,
)
    requires
        orderly(v),
    ensures
        orderly(listening(port, device)),
        v.next_ticket < u64::MAX ==> orderly(v.asked(trusted, a)),
        orderly(v.decided(d)),
        0 <= i < v.waiting.len() ==> orderly(v.settled(i, outcome)),
        forall|w: ServerView|
            w.waiting == v.waiting && w.next_ticket == v.next_ticket ==> #[trigger] orderly(w),
{
    settings::law_clean_name_is_safe(a.name);
    let asked = v.asked(trusted, a);
    if v.next_ticket < u64::MAX {
        assert forall|k: int| 0 <= k < asked.waiting.len() implies clean(
            (#[trigger] asked.waiting[k]).name,
        ) && asked.waiting[k].ticket < asked.next_ticket by {
            if k < v.waiting.len() {
                assert(asked.waiting[k] == v.waiting[k]);
            }
        }
        assert forall|k: int, m: int| 0 <= k < m < asked.waiting.len() implies (#[trigger]
        asked.waiting[k]).ticket != (#[trigger] asked.waiting[m]).ticket by {
            assert(asked.waiting[k] == v.waiting[k]);
            if m < v.waiting.len() {
                assert(asked.waiting[m] == v.waiting[m]);
            }
        }
    }
    lemma_first_where(v.waiting, undecided());
    let decided = v.decided(d);
    assert forall|k: int| 0 <= k < decided.waiting.len() implies clean(
        (#[trigger] decided.waiting[k]).name,
    ) && decided.waiting[k].ticket < decided.next_ticket by {
        assert(decided.waiting[k].name == v.waiting[k].name);
        assert(decided.waiting[k].ticket == v.waiting[k].ticket);
    }
    assert forall|k: int, m: int| 0 <= k < m < decided.waiting.len() implies (#[trigger]
    decided.waiting[k]).ticket != (#[trigger] decided.waiting[m]).ticket by {
        assert(decided.waiting[k].ticket == v.waiting[k].ticket);
        assert(decided.waiting[m].ticket == v.waiting[m].ticket);
    }
    if 0 <= i < v.waiting.len() {
        let settled = v.settled(i, outcome);
        let left = v.waiting.remove(i);
        assert forall|k: int| 0 <= k < left.len() implies (#[trigger] left[k]) == v.waiting[if k
            < i {
            k
        } else {
            k + 1
        }] by {}
        assert(settled.waiting == left || settled.waiting == v.waiting);
    }
}

// ---------------------------------------------------------------------------
// What the consent gate and the sessions are for
// ---------------------------------------------------------------------------

/// A request is told by its path: health, the stream and an authorization are what
/// there is. Who asks, and by which token, stands in the head.
pub proof fn law_requests_are_told_by_their_path(head: Seq<char>)
    ensures
        request_in(head) is Bad <==> http::request_path(head) is None,
        request_in(head) is Health <==> http::request_path(head) == Some("/health"@),
        request_in(head) matches RequestView::Consent { kind, name, token } ==> {
            &&& kind == Kind::Stream <==> http::request_path(head) == Some("/stream"@)
            &&& kind == Kind::Authorize <==> http::request_path(head) == Some("/authorize"@)
            &&& http::header(head, "x-micsync-name"@) matches Some(n) ==> name
                == settings::clean_name(n)
            &&& http::header(head, "x-micsync-name"@) is None ==> name.len() == 0
            &&& http::header(head, "x-micsync-token"@) matches Some(t) ==> token == t
            &&& http::header(head, "x-micsync-token"@) is None ==> token.len() == 0
        },
        request_in(head) is Consent <==> http::request_path(head) == Some("/stream"@)
            || http::request_path(head) == Some("/authorize"@),
{
    reveal_strlit("/health");
    reveal_strlit("/stream");
    reveal_strlit("/authorize");
    assert("/health"@.len() == 7 && "/stream"@[1] == 's' && "/health"@[1] == 'h');
    assert("/authorize"@.len() == 10);
    settings::law_clean_name_is_safe(Seq::empty());
    text::law_trim_leaves_the_core(Seq::empty(), Seq::empty(), Seq::empty());
    settings::law_good_name_is_kept(Seq::empty());
}

/// A trusted token is let in and leaves everything as it is. Without one, a request
/// for the stream from a host that was allowed once is let in and uses that up, for
/// this host alone. Every other request waits, behind those that wait already, with
/// its cleaned name and a ticket of its own, and changes nothing else.
pub proof fn law_request_is_let_in_or_waits(
    v: ServerView,
    trusted: Seq<TrustedView>,
    a: Asked,
    host: Seq<char>,
)
    ensures
        v.admits(trusted, a) <==> settings::trusts(trusted, a.token) || (a.kind == Kind::Stream
            && v.passes.contains(a.host)),
        settings::trusts(trusted, a.token) ==> v.asked(trusted, a) == v,
        !settings::trusts(trusted, a.token) && v.admits(trusted, a) ==> {
            let after = v.asked(trusted, a);
            &&& after.waiting == v.waiting
            &&& after.next_ticket == v.next_ticket
            &&& after.passes.contains(host) <==> v.passes.contains(host) && host != a.host
        },
        !v.admits(trusted, a) ==> {
            let after = v.asked(trusted, a);
            let n = v.waiting.len() as int;
            &&& after.waiting.len() == n + 1
            &&& after.waiting.take(n) == v.waiting
            &&& after.waiting[n].ticket == v.next_ticket
            &&& after.waiting[n].kind == a.kind
            &&& after.waiting[n].name == settings::clean_name(a.name)
            &&& after.waiting[n].addr == a.addr
            &&& after.waiting[n].host == a.host
            &&& after.waiting[n].decision is None
            &&& after.next_ticket != v.next_ticket
            &&& after.passes == v.passes
        },
        ({
            let after = v.asked(trusted, a);
            &&& after.port == v.port && after.stopped == v.stopped && after.device_pref
                == v.device_pref
            &&& after.session == v.session && after.next_id == v.next_id && after.error == v.error
        }),
{
    lemma_hosts(v.passes, a.host, host);
    let n = v.waiting.len() as int;
    if !v.admits(trusted, a) {
        assert(v.asked(trusted, a).waiting.take(n) =~= v.waiting);
    }
}

proof fn lemma_without_host(hosts: Seq<Seq<char>>, host: Seq<char>, other: Seq<char>)
    ensures
        without_host(hosts, host).contains(other) <==> hosts.contains(other) && other != host,
    decreases hosts.len(),
{
    reveal(Seq::filter);
    let left = without_host(hosts, host);
    if hosts.len() > 0 {
        let before = hosts.drop_last();
        let part = without_host(before, host);
        let last = hosts.last();
        lemma_without_host(before, host, other);
        assert(last == host ==> left == part);
        assert(last != host ==> left == part.push(last));
        if left.contains(other) {
            let i = choose|i: int| 0 <= i < left.len() && left[i] == other;
            if i < part.len() {
                assert(part[i] == other);
                let j = choose|j: int| 0 <= j < before.len() && before[j] == other;
                assert(hosts[j] == other);
            } else {
                assert(hosts[hosts.len() - 1] == other);
            }
        }
        if hosts.contains(other) && other != host {
            let j = choose|j: int| 0 <= j < hosts.len() && hosts[j] == other;
            if j < before.len() {
                assert(before[j] == other);
                let i = choose|i: int| 0 <= i < part.len() && part[i] == other;
                assert(left[i] == other);
            } else {
                assert(left[part.len() as int] == other);
            }
        }
    }
}

proof fn lemma_hosts(hosts: Seq<Seq<char>>, host: Seq<char>, other: Seq<char>)
    ensures
        without_host(hosts, host).contains(other) <==> hosts.contains(other) && other != host,
        with_host(hosts, host).contains(other) <==> hosts.contains(other) || other == host,
{
    lemma_without_host(hosts, host, other);
    let more = with_host(hosts, host);
    if more.contains(other) {
        let i = choose|i: int| 0 <= i < more.len() && more[i] == other;
        if i < hosts.len() {
            assert(hosts[i] == other);
        }
    }
    if hosts.contains(other) {
        let i = choose|i: int| 0 <= i < hosts.len() && hosts[i] == other;
        assert(more[i] == other);
    }
    if !hosts.contains(host) {
        assert(more[hosts.len() as int] == host);
    }
}

/// The owner sees the oldest request without an answer, and none only where all
/// are answered.
pub proof fn law_owner_sees_the_oldest_request(v: ServerView)
    ensures
        match v.pending() {
            Some(w) => exists|i: int|
                0 <= i < v.waiting.len() && #[trigger] v.waiting[i] == w && w.decision is None && (
                forall|j: int| 0 <= j < i ==> (#[trigger] v.waiting[j]).decision is Some),
            None => forall|j: int|
                0 <= j < v.waiting.len() ==> (#[trigger] v.waiting[j]).decision is Some,
        },
{
    lemma_first_where(v.waiting, undecided());
    match first_where(v.waiting, undecided()) {
        Some(i) => {
            assert(undecided()(v.waiting[i]));
            assert forall|j: int| 0 <= j < i implies (#[trigger] v.waiting[j]).decision is Some by {
                assert(!undecided()(v.waiting[j]));
            }
        },
        None => {
            assert forall|j: int| 0 <= j < v.waiting.len() implies (#[trigger] v.waiting[j]).decision
                is Some by {
                assert(!undecided()(v.waiting[j]));
            }
        },
    }
}

/// The owner's answer is noted with the request that the owner sees; nothing else
/// about it or about the server changes. Without a request an answer does nothing.
pub proof fn law_answer_changes_nothing_else(v: ServerView, d: Decision, i: int)
    ensures
        v.pending() is None ==> v.decided(d) == v,
        ({
            let after = v.decided(d);
            &&& after.waiting.len() == v.waiting.len()
            &&& 0 <= i < v.waiting.len() ==> {
                let (was, is) = (v.waiting[i], after.waiting[i]);
                &&& is.ticket == was.ticket && is.kind == was.kind && is.name == was.name
                &&& is.addr == was.addr && is.host == was.host
                &&& was.decision is Some ==> is.decision == was.decision
            }
            &&& v.pending() matches Some(w) ==> exists|k: int|
                0 <= k < v.waiting.len() && v.waiting[k] == w && #[trigger] after.waiting[k] == (
                WaitingView { decision: Some(d), ..w })
            &&& after.passes == v.passes && after.next_ticket == v.next_ticket
            &&& after.session == v.session && after.next_id == v.next_id
            &&& after.stopped == v.stopped && after.port == v.port && after.device_pref
                == v.device_pref && after.error == v.error
        }),
{
    lemma_first_where(v.waiting, undecided());
    match first_where(v.waiting, undecided()) {
        Some(k) => {
            assert(undecided()(v.waiting[k]));
            assert(v.decided(d).waiting[k] == (WaitingView { decision: Some(d), ..v.waiting[k] }));
        },
        None => {},
    }
}

/// An answer takes effect as soon as it is there, as long as the client is and the
/// server runs. Until then a request for the stream waits for half a minute, however
/// silent its client, and one for an authorization as long as its client gives a
/// sign of life every quarter of a minute, however long that takes.
pub proof fn law_answers_take_effect(
    w: WaitingView,
    stopped: bool,
    waited_ms: u64,
    silent_ms: u64,
    gone: bool,
)
    ensures
        ({
            let outcome = outcome_of(w, stopped, waited_ms, silent_ms, gone);
            &&& gone || stopped ==> outcome is Gone
            &&& !gone && !stopped ==> {
                &&& w.decision == Some(Decision::Deny) ==> outcome is Refused
                &&& w.decision == Some(Decision::Once) ==> outcome == Outcome::Agreed(
                    Decision::Once,
                )
                &&& w.decision == Some(Decision::Always) ==> outcome == Outcome::Agreed(
                    Decision::Always,
                )
                &&& w.decision is None && w.kind == Kind::Stream && waited_ms < 30000 ==> outcome
                    is Waits
                &&& w.decision is None && w.kind == Kind::Stream && waited_ms >= 30000 ==> outcome
                    is TimedOut
                &&& w.decision is None && w.kind == Kind::Authorize && silent_ms < 15000 ==> outcome
                    is Waits
                &&& w.decision is None && w.kind == Kind::Authorize && silent_ms >= 15000
                    ==> outcome is Gone
            }
        }),
{
}

/// What the client is told: consent to a request for the stream opens it, consent
/// to one for an authorization grants it; with "always" the client gets the token,
/// with "once" none; a refusal says whether a person or the clock refused.
pub proof fn law_client_is_told_the_outcome(r: Verdict, kind: Kind, outcome: Outcome, token: Seq<char>)
    requires
        verdict_is(r, kind, outcome, token),
    ensures
        outcome is Waits <==> r is Waits,
        outcome is Gone <==> r is Gone,
        outcome is Refused ==> (r matches Verdict::Denied(m) && m@ == "对方拒绝了本次麦克风使用请求"@),
        outcome is TimedOut ==> (r matches Verdict::Denied(m) && m@
            == "对方未在 30 秒内确认,请求已自动拒绝"@),
        outcome is Agreed && kind == Kind::Stream <==> r is Granted,
        outcome is Agreed && kind == Kind::Authorize <==> r is Authorized,
        r matches Verdict::Granted(g) ==> g.issued() == (if outcome == Outcome::Agreed(
            Decision::Always,
        ) {
            token
        } else {
            Seq::empty()
        }),
        r matches Verdict::Authorized(t) ==> t@ == (if outcome == Outcome::Agreed(
            Decision::Always,
        ) {
            token
        } else {
            Seq::empty()
        }),
{
}

/// A request that has its outcome leaves the others waiting as they were, in order;
/// one that waits on changes nothing. An authorization for once, and nothing else,
/// lets its host in for one stream.
pub proof fn law_settling_concerns_one_request(
    v: ServerView,
    i: int,
    k: int,
    outcome: Outcome,
    host: Seq<char>,
)
    requires
        0 <= i < v.waiting.len(),
    ensures
        outcome is Waits ==> v.settled(i, outcome) == v,
        !(outcome is Waits) ==> {
            let after = v.settled(i, outcome);
            &&& after.waiting.len() == v.waiting.len() - 1
            &&& 0 <= k < i ==> after.waiting[k] == v.waiting[k]
            &&& i <= k < after.waiting.len() ==> after.waiting[k] == v.waiting[k + 1]
        },
        v.settled(i, outcome).passes.contains(host) <==> v.passes.contains(host) || (outcome
            == Outcome::Agreed(Decision::Once) && v.waiting[i].kind == Kind::Authorize && host
            == v.waiting[i].host),
        ({
            let after = v.settled(i, outcome);
            &&& after.next_ticket == v.next_ticket && after.session == v.session && after.next_id
                == v.next_id
            &&& after.stopped == v.stopped && after.port == v.port && after.device_pref
                == v.device_pref && after.error == v.error
        }),
{
    lemma_hosts(v.passes, v.waiting[i].host, host);
}

/// Whatever becomes of a request, every token that was trusted stays trusted, with
/// its client's entry as it was. "Always" adds one entry behind the old ones: the
/// new token, with the client's cleaned name and the time. Nothing else about the
/// settings changes, and no other outcome changes anything.
pub proof fn law_trust_only_grows_by_consent(
    s: SettingsView,
    w: WaitingView,
    outcome: Outcome,
    token: Seq<char>,
    now: u64,
    other: Seq<char>,
)
    ensures
        ({
            let after = trusting(s, w, outcome, token, now);
            &&& settings::trusts(s.trusted, other) ==> settings::trusts(after.trusted, other)
            &&& settings::trusts(after.trusted, other) && !settings::trusts(s.trusted, other)
                ==> outcome == Outcome::Agreed(Decision::Always) && other == token
            &&& outcome == Outcome::Agreed(Decision::Always) ==> {
                &&& after.trusted.len() == s.trusted.len() + 1
                &&& after.trusted.drop_last() == s.trusted
                &&& after.trusted.last().token == token
                &&& after.trusted.last().name == settings::clean_name(w.name)
                &&& after.trusted.last().added_at == now
                &&& token.len() > 0 ==> settings::trusts(after.trusted, token)
            }
            &&& outcome != Outcome::Agreed(Decision::Always) ==> after == s
            &&& after.device_name == s.device_name && after.device_id == s.device_id
            &&& after.known_servers == s.known_servers && after.last_mode == s.last_mode
                && after.server_was_running == s.server_was_running
        }),
{
    if outcome == Outcome::Agreed(Decision::Always) {
        let entry = TrustedView { token, name: settings::clean_name(w.name), added_at: now };
        let after = trusting(s, w, outcome, token, now);
        assert(after.trusted.drop_last() =~= s.trusted);
        assert(after.trusted =~= s.trusted + seq![entry]);
        settings::law_token_lets_in_whoever_has_it(s.trusted, entry, Seq::empty(), token);
        settings::law_token_lets_in_whoever_has_it(s.trusted, entry, seq![entry], other);
        if settings::trusts(seq![entry], other) {
            let one = seq![entry];
            let i = choose|i: int| 0 <= i < one.len() && (#[trigger] one[i]).token == other;
            assert(one[i] == entry);
        }
        assert(s.trusted + seq![entry] + Seq::<TrustedView>::empty() =~= s.trusted + seq![entry]);
    }
}

/// Two clients that were always allowed are both let in, whoever came first.
pub proof fn law_always_holds_for_every_client(
    v: ServerView,
    s: SettingsView,
    one: WaitingView,
    two: WaitingView,
    a: Asked,
    b: Asked,
    now: u64,
    later: u64,
)
    requires
        a.token.len() > 0,
        b.token.len() > 0,
    ensures
        ({
            let always = Outcome::Agreed(Decision::Always);
            let first = trusting(s, one, always, a.token, now);
            let both = trusting(first, two, always, b.token, later);
            v.admits(both.trusted, a) && v.admits(both.trusted, b)
        }),
{
    let always = Outcome::Agreed(Decision::Always);
    let first = trusting(s, one, always, a.token, now);
    law_trust_only_grows_by_consent(s, one, always, a.token, now, a.token);
    law_trust_only_grows_by_consent(first, two, always, b.token, later, a.token);
    law_trust_only_grows_by_consent(first, two, always, b.token, later, b.token);
}

/// A claim gives the microphone to the request that makes it, under an id that the
/// next claim does not get, and changes nothing else. A session may go on exactly
/// while it has the microphone and the server runs.
pub proof fn law_claim_gives_the_microphone(v: ServerView, addr: Seq<char>, id: u64)
    ensures
        ({
            let after = v.claimed(addr);
            &&& after.session is Some
            &&& after.session->0.id == v.next_id
            &&& after.session->0.addr == addr
            &&& after.next_id != v.next_id
            &&& v.next_id < u64::MAX ==> after.next_id == v.next_id + 1
            &&& after.waiting == v.waiting && after.passes == v.passes && after.next_ticket
                == v.next_ticket
            &&& after.meter == v.meter && after.last_device == v.last_device && after.last_rate
                == v.last_rate
            &&& after.stopped == v.stopped && after.port == v.port && after.device_pref
                == v.device_pref && after.error == v.error
        }),
        v.end_of(id) is None <==> !v.stopped && v.session is Some && v.session->0.id == id,
        v.stopped ==> v.end_of(id) == Some(0u32),
        !v.stopped && v.end_of(id) is Some ==> v.end_of(id) == Some(1u32),
        ({
            let after = v.released(id);
            &&& after.session is Some <==> v.session is Some && v.session->0.id != id
            &&& after.session is Some ==> after.session == v.session
            &&& after.next_id == v.next_id && after.waiting == v.waiting && after.passes == v.passes
            &&& after.next_ticket == v.next_ticket && after.meter == v.meter && after.last_device
                == v.last_device
            &&& after.last_rate == v.last_rate && after.stopped == v.stopped && after.port == v.port
            &&& after.device_pref == v.device_pref && after.error == v.error
        }),
{
}

/// A whole session: whoever claims has the microphone until it is done or another
/// one claims, and afterwards it is free.
pub proof fn law_session_runs_its_course(v: ServerView, addr: Seq<char>, later: Seq<char>)
    requires
        !v.stopped,
    ensures
        v.claimed(addr).end_of(v.next_id) is None,
        v.claimed(addr).client() == addr,
        v.claimed(addr).released(v.next_id).session is None,
        v.claimed(addr).released(v.next_id).end_of(v.next_id) is Some,
        v.claimed(addr).claimed(later).end_of(v.next_id) == Some(1u32),
        v.claimed(addr).claimed(later).released(v.next_id).client() == later,
{
}

/// The owner is shown the chosen device, else the one that was used last, else that
/// it is the system's choice; and who has the microphone.
pub proof fn law_owner_is_shown_the_device(v: ServerView)
    ensures
        v.device_pref matches Some(d) ==> v.shown_device() == d,
        v.device_pref is None && v.last_device.len() > 0 ==> v.shown_device() == v.last_device,
        v.device_pref is None && v.last_device.len() == 0 ==> v.shown_device() == "系统默认"@,
        v.session matches Some(s) ==> v.client() == s.addr,
        v.session is None ==> v.client().len() == 0,
{
}

/// The health document tells whether the microphone is in use and by whom, the
/// rate of the last session, and who this server is.
pub proof fn law_health_tells_how_it_is(
    v: ServerView,
    alias: Seq<char>,
    device_type: Seq<char>,
    device_id: Seq<char>,
)
    ensures
        ({
            let o = json::object_of(v.health_members(alias, device_type, device_id));
            &&& json::text_at(o, "status"@) == Some("ok"@)
            &&& json::text_at(o, "app"@) == Some("micsync"@)
            &&& json::flag_at(o, "streaming"@) == Some(v.session is Some)
            &&& json::text_at(o, "client"@) == Some(v.client())
            &&& json::number_at(o, "sample_rate"@) == Some(v.last_rate as u64)
            &&& json::text_at(o, "alias"@) == Some(alias)
            &&& json::text_at(o, "device_type"@) == Some(device_type)
            &&& json::text_at(o, "device_id"@) == Some(device_id)
        }),
{
    let m = v.health_members(alias, device_type, device_id);
    lemma_health_names(v, alias, device_type, device_id);
    json::law_member_is_found(m, 0);
    json::law_member_is_found(m, 1);
    json::law_member_is_found(m, 2);
    json::law_member_is_found(m, 3);
    json::law_member_is_found(m, 4);
    json::law_member_is_found(m, 5);
    json::law_member_is_found(m, 6);
    json::law_member_is_found(m, 7);
}

/// A server begins to listen with the microphone closed, nobody waiting and nobody
/// let in.
pub proof fn law_server_begins_closed(port: u16, device: Option<Seq<char>>, a: Asked, id: u64)
    ensures
        ({
            let v = listening(port, device);
            &&& v.port == port && v.device_pref == device && !v.stopped
            &&& v.session is None && v.client().len() == 0
            &&& v.end_of(id) is Some
            &&& v.pending() is None && v.waiting.len() == 0
            &&& v.last_rate == 0 && v.error is None
            &&& !v.admits(Seq::empty(), a)
        }),
{
    settings::law_token_lets_in_whoever_has_it(
        Seq::empty(),
        TrustedView { token: a.token, name: a.name, added_at: 0 },
        Seq::empty(),
        a.token,
    );
    lemma_first_where(listening(port, device).waiting, undecided());
}

/// An error document gives the error and the message to whoever reads it, and the
/// document that grants an authorization says so.
pub proof fn law_answers_say_what_they_mean(error: Seq<char>, message: Seq<char>)
    ensures
        ({
            let o = json::object_of(error_members(error, message));
            &&& json::text_at(o, "error"@) == Some(error)
            &&& json::text_at(o, "message"@) == Some(message)
        }),
        json::text_at(json::object_of(authorized_members()), "status"@) == Some("authorized"@),
{
    reveal_strlit("error");
    reveal_strlit("message");
    assert("error"@.len() != "message"@.len());
    json::law_member_is_found(error_members(error, message), 0);
    json::law_member_is_found(error_members(error, message), 1);
    json::law_member_is_found(authorized_members(), 0);
}

/// A server understands a request for its health, from a client and from a scan.
pub proof fn law_health_request_is_understood(host: Seq<char>)
    requires
        http::one_line(host),
    ensures
        request_in(http::head_text(http::plain_request_lines("/health"@, host))) is Health,
{
    reveal_strlit("/health");
    reveal_strlit("GET ");
    reveal_strlit("GET");
    reveal_strlit(" HTTP/1.1");
    reveal_strlit("Connection: close");
    reveal_strlit("Host: ");
    let none = Seq::<char>::empty();
    let path = "/health"@;
    let lines = http::plain_request_lines(path, host);
    http::law_written_heads_are_complete(path, host, none, none, 200, none, none);
    assert(http::one_line(lines[0]) && lines[0].len() > 0);
    assert(http::one_line(lines[1]) && lines[1].len() > 0) by {
        assert forall|i: int| 0 <= i < lines[1].len() implies #[trigger] lines[1][i] != '\n' by {
            if i >= 6 {
                assert(lines[1][i] == host[i - 6]);
            }
        }
    }
    assert(http::one_line(lines[2]) && lines[2].len() > 0);
    assert(http::proper_lines(lines));
    http::lemma_head_first_line(lines, http::crlf());
    let more = http::lines_text(lines.drop_first()) + http::crlf();
    let head = http::head_text(lines);
    assert(text::first_line(head) == lines[0]);
    text::law_words_stand_between_white_space(none, "GET"@, seq![' '] + path + " HTTP/1.1"@);
    text::law_words_stand_between_white_space(seq![' '], path, " HTTP/1.1"@);
    assert(lines[0] =~= none + "GET"@ + (seq![' '] + path + " HTTP/1.1"@));
    assert(!path.contains('?'));
    text::law_text_is_cut_at_the_first_separator(path, seq!['?']);
    match text::split_once(path, seq!['?']) {
        Some((a, b)) => {
            assert(path[a.len() as int] == '?');
        },
        None => {},
    }
    assert(head.len() > 0) by {
        if head.len() == 0 {
            assert(text::first_line(head).len() == 0);
        }
    }
}

/// An answer is its head and its body: whoever reads it finds the status, the body,
/// and the token if one was issued.
pub proof fn law_answer_is_read_back(
    code: u16,
    reason: Seq<char>,
    body: Seq<char>,
    token: Seq<char>,
)
    requires
        http::one_line(reason),
        proper_token(token),
    ensures
        http::response_parts(response(code, reason, body, token)) == Ok::<
            (u16, Seq<char>),
            Seq<char>,
        >((code, body)),
        token.len() > 0 ==> found_token(token) == Some(token),
        token.len() == 0 ==> found_token(token) is None,
        proper_token(Seq::empty()),
        error_text(reason, body) == json::json_text(
            seq![
                ("error"@, json::LeafView::Text(reason)),
                ("message"@, json::LeafView::Text(body)),
            ],
        ),
{
    http::law_response_reads_back(code, reason, body, token);
}

/// A refusal that is understood comes apart into a head that refuses with the status
/// and the body, and the body gives the client its reason.
pub proof fn law_refusal_reaches_the_client(
    answer: Seq<char>,
    code: u16,
    body: Seq<char>,
    e: client::OpenErrView,
)
    requires
        refusal_understood(answer, code, body, e),
    ensures
        answer.len() >= body.len(),
        answer.skip(answer.len() - body.len()) == body,
        client::stream_head(answer.take(answer.len() - body.len()))
            == client::StreamHeadView::Refused(code),
        client::refusal(code, client::message_in(body)) == e,
{
    let head = choose|head: Seq<char>|
        answer == head + body && #[trigger] client::stream_head(head)
            == client::StreamHeadView::Refused(code);
    assert(answer.take(answer.len() - body.len()) =~= head);
    assert(answer.skip(answer.len() - body.len()) =~= body);
}

/// A connection finds its own request by its ticket, wherever it stands.
pub proof fn law_ticket_finds_its_request(v: ServerView, i: int, ticket: u64)
    requires
        orderly(v),
    ensures
        0 <= i < v.waiting.len() ==> first_where(v.waiting, ticketed(v.waiting[i].ticket)) == Some(
            i,
        ),
        (forall|j: int| 0 <= j < v.waiting.len() ==> (#[trigger] v.waiting[j]).ticket != ticket)
            ==> first_where(v.waiting, ticketed(ticket)) is None,
        ticket >= v.next_ticket ==> first_where(v.waiting, ticketed(ticket)) is None,
{
    if 0 <= i < v.waiting.len() {
        let t = v.waiting[i].ticket;
        assert(ticketed(t)(v.waiting[i]));
        assert forall|j: int| 0 <= j < i implies !ticketed(t)(#[trigger] v.waiting[j]) by {
            assert(v.waiting[j].ticket != v.waiting[i].ticket);
        }
        lemma_first_where_at(v.waiting, ticketed(t), i);
    }
    lemma_first_where(v.waiting, ticketed(ticket));
    match first_where(v.waiting, ticketed(ticket)) {
        Some(k) => {
            assert(v.waiting[k].ticket == ticket);
        },
        None => {},
    }
}

/// What is known of a request is all that it holds.
pub proof fn law_requests_are_known_whole(kind: Kind, name: String, token: String)
    ensures
        (Request::Consent { kind, name, token })@ == (RequestView::Consent {
            kind,
            name: name@,
            token: token@,
        }),
        Request::Bad@ is Bad,
        Request::NotFound@ is NotFound,
        Request::Health@ is Health,
        Kind::Stream.word() == "stream"@,
        Kind::Authorize.word() == "authorize"@,
{
}

} // verus!
