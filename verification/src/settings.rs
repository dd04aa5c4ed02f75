//! Who this device is, and whom it trusts.
//!
//! Two identities are kept apart. The device id is public: it tells a device
//! apart from itself in discovery and is never a credential. Trust rests on
//! tokens alone: a server issues one per client on "always allow", and a client
//! keeps each under the id of the server that issued it.
use vstd::prelude::*;

use crate::http;
use crate::text;
use crate::text::{
    chars_of, hex_text, is_control, matches_at, opt_copy, same_text, string_of, trimmed,
};

verus! {

/// The longest device name, in characters.
pub const MAX_NAME_LEN: usize = 40;

// ---------------------------------------------------------------------------
// Names
// ---------------------------------------------------------------------------

/// The characters that are no control characters.
pub open spec fn printable(s: Seq<char>) -> Seq<char> {
    s.filter(|c: char| !text::control(c))
}

/// A device name cleaned for display and for an HTTP header: without control
/// characters, cut to the longest length, trimmed.
pub open spec fn clean_name(raw: Seq<char>) -> Seq<char> {
    let p = printable(raw);
    text::trim(
        if p.len() > MAX_NAME_LEN {
            p.take(MAX_NAME_LEN as int)
        } else {
            p
        },
    )
}

/// Cleans a device name. Names come from other devices and are not trusted.
pub fn sanitize_name(raw: &str) -> (r: String)
    ensures
        r@ == clean_name(raw@),
{
    let cs = chars_of(raw);
    let mut kept: Vec<char> = Vec::new();
    let ghost keep = |c: char| !text::control(c);
    let n: usize = cs.len();
    let mut i: usize = 0;
    proof {
        assert(cs@.take(0) =~= Seq::<char>::empty());
        reveal(Seq::filter);
    }
    while i < n
        invariant
            n == cs@.len(),
            i <= n,
            keep == (|c: char| !text::control(c)),
            kept@ == cs@.take(i as int).filter(keep),
        decreases n - i,
    {
        proof {
            reveal(Seq::filter);
            assert(cs@.take(i + 1).drop_last() =~= cs@.take(i as int));
            assert(cs@.take(i + 1).last() == cs@[i as int]);
        }
        if !is_control(cs[i]) {
            kept.push(cs[i]);
        }
        i = i + 1;
    }
    assert(cs@.take(n as int) =~= cs@);
    if kept.len() > MAX_NAME_LEN {
        kept.truncate(MAX_NAME_LEN);
    }
    string_of(trimmed(kept.as_slice()))
}

/// A cleaned name is short, holds no control character, so no line feed that
/// would break a header, and has no white space at its ends.
pub proof fn law_clean_name_is_safe(raw: Seq<char>)
    ensures
        clean_name(raw).len() <= MAX_NAME_LEN,
        forall|i: int|
            0 <= i < clean_name(raw).len() ==> !text::control(#[trigger] clean_name(raw)[i]),
        http::one_line(clean_name(raw)),
        http::trimmed_text(clean_name(raw)),
{
    let keep = |c: char| !text::control(c);
    let p = printable(raw);
    let cut = if p.len() > MAX_NAME_LEN {
        p.take(MAX_NAME_LEN as int)
    } else {
        p
    };
    let name = clean_name(raw);
    text::lemma_trim(cut);
    assert forall|i: int| 0 <= i < name.len() implies !text::control(#[trigger] name[i]) by {
        text::lemma_leading_white(cut);
        text::lemma_trailing_white(text::trim_start(cut));
        let k = i + text::leading_white(cut);
        assert(name[i] == cut[k]);
        raw.lemma_filter_pred(keep, k);
        assert(keep(p[k]));
    }
}

/// Cleaning a cleaned name changes nothing.
pub proof fn law_clean_name_is_stable(raw: Seq<char>)
    ensures
        clean_name(clean_name(raw)) == clean_name(raw),
{
    let name = clean_name(raw);
    law_clean_name_is_safe(raw);
    lemma_filter_all(name);
    text::lemma_trim_identity(name);
}

proof fn lemma_filter_all(s: Seq<char>)
    requires
        forall|i: int| 0 <= i < s.len() ==> !text::control(#[trigger] s[i]),
    ensures
        printable(s) == s,
    decreases s.len(),
{
    reveal(Seq::filter);
    if s.len() > 0 {
        let t = s.drop_last();
        assert forall|i: int| 0 <= i < t.len() implies !text::control(#[trigger] t[i]) by {
            assert(t[i] == s[i]);
        }
        lemma_filter_all(t);
        assert(!text::control(s[s.len() - 1]));
        assert(printable(s) =~= s);
    }
}

/// The name of a device whose host name is unusable.
pub open spec fn nameless() -> Seq<char> {
    "MicSync 设备"@
}

/// A host name without the suffix that macOS appends.
pub open spec fn without_local(host: Seq<char>) -> Seq<char> {
    if text::ends_with(host, ".local"@) {
        host.take(host.len() - 6)
    } else {
        host
    }
}

/// The name that a device has by default, from its host name.
pub open spec fn name_of_host(host: Option<Seq<char>>) -> Seq<char> {
    let raw = match host {
        Some(h) => h,
        None => nameless(),
    };
    let name = clean_name(without_local(raw));
    if name.len() == 0 {
        nameless()
    } else {
        name
    }
}

/// `gethostname::gethostname`, then `OsString::into_string` of the standard
/// library: the machine's host name, and nothing if it is no Unicode text. What
/// the name is rests with the machine, so nothing is claimed of it. On Windows
/// the call panics where the system fails to give the name, or where the host is
/// renamed between the two system calls that it makes.
#[verifier::external_body]
fn host_name() -> (r: Option<String>) {
    gethostname::gethostname().into_string().ok()
}

/// The default device name on a machine with the given host name.
pub fn device_name_for_host(host: Option<&str>) -> (r: String)
    ensures
        r@ == name_of_host(
            match host {
                Some(h) => Some(h@),
                None => None,
            },
        ),
{
    let raw: &str = match host {
        Some(h) => h,
        None => "MicSync 设备",
    };
    let cs = chars_of(raw);
    let suffix = chars_of(".local");
    proof {
        reveal_strlit(".local");
    }
    let n: usize = cs.len();
    let clean = if n >= 6 && matches_at(cs.as_slice(), suffix.as_slice(), n - 6) {
        let stem = raw.substring_char(0, n - 6);
        assert(stem@ =~= raw@.take(n - 6));
        sanitize_name(stem)
    } else {
        sanitize_name(raw)
    };
    if clean.as_str().is_empty() {
        "MicSync 设备".to_string()
    } else {
        clean
    }
}

/// The default device name: the host name, cleaned. It is the default name for
/// whatever host name the machine has. On Windows the call panics where the
/// system fails to give the host name, or where the host is renamed during the
/// call; [`device_name_for_host`] takes a host name that is known.
pub fn default_device_name() -> (r: String)
    ensures
        exists|host: Option<Seq<char>>| r@ == #[trigger] name_of_host(host),
{
    match host_name() {
        Some(h) => {
            let r = device_name_for_host(Some(h.as_str()));
            assert(r@ == name_of_host(Some(h@)));
            r
        },
        None => {
            let r = device_name_for_host(None);
            assert(r@ == name_of_host(None));
            r
        },
    }
}

/// Every default name can be shown: it is not empty, short, and safe in a header.
pub proof fn law_default_name_is_usable(host: Option<Seq<char>>)
    ensures
        0 < name_of_host(host).len() <= MAX_NAME_LEN,
        http::one_line(name_of_host(host)),
        http::trimmed_text(name_of_host(host)),
{
    let raw = match host {
        Some(h) => h,
        None => nameless(),
    };
    law_clean_name_is_safe(without_local(raw));
    reveal_strlit("MicSync 设备");
}

// ---------------------------------------------------------------------------
// Identifiers and time
// ---------------------------------------------------------------------------

/// The identifier of two numbers: each as 16 hexadecimal digits.
pub open spec fn identifier(first: u64, second: u64) -> Seq<char> {
    text::hex(first as nat, 16) + text::hex(second as nat, 16)
}

/// An identifier: two random 64 bit numbers as 32 hexadecimal digits. Where the
/// numbers come from is up to the caller.
pub fn random_hex(first: u64, second: u64) -> (r: String)
    ensures
        r@ == identifier(first, second),
        r@.len() == 32,
{
    let tail = hex_text(second, 16);
    let mut out = hex_text(first, 16);
    out.append(tail.as_str());
    proof {
        text::lemma_hex(first as nat, 16);
        text::lemma_hex(second as nat, 16);
    }
    out
}

/// Identifiers of different numbers differ, and each is 32 characters and safe in
/// a header.
pub proof fn law_identifiers_are_distinct(a: u64, b: u64, c: u64, d: u64)
    ensures
        ({
            let x = identifier(a, b);
            let y = identifier(c, d);
            &&& x == y ==> a == c && b == d
            &&& x.len() == 32
            &&& http::one_line(x)
            &&& http::trimmed_text(x)
        }),
{
    let x = identifier(a, b);
    let y = identifier(c, d);
    text::lemma_hex(a as nat, 16);
    text::lemma_hex(b as nat, 16);
    text::lemma_hex(c as nat, 16);
    text::lemma_hex(d as nat, 16);
    if x == y {
        assert(x.take(16) =~= text::hex(a as nat, 16));
        assert(y.take(16) =~= text::hex(c as nat, 16));
        assert(x.skip(16) =~= text::hex(b as nat, 16));
        assert(y.skip(16) =~= text::hex(d as nat, 16));
        assert(vstd::arithmetic::power::pow(16, 16) == 0x1_0000_0000_0000_0000int) by {
            reveal_with_fuel(vstd::arithmetic::power::pow, 17);
        }
        text::lemma_hex_injective(a as nat, c as nat, 16);
        text::lemma_hex_injective(b as nat, d as nat, 16);
    }
    assert forall|i: int| 0 <= i < x.len() implies text::digit(#[trigger] x[i]) || 'a' <= x[i]
        <= 'f' by {
        if i < 16 {
            assert(x[i] == text::hex(a as nat, 16)[i]);
        } else {
            assert(x[i] == text::hex(b as nat, 16)[i - 16]);
        }
    }
}

/// The time in seconds since the epoch, as the clock gave it; zero where the
/// clock stands before the epoch.
pub fn now_secs(since_epoch: Option<u64>) -> (r: u64)
    ensures
        r == match since_epoch {
            Some(s) => s,
            None => 0,
        },
{
    match since_epoch {
        Some(s) => s,
        None => 0,
    }
}

// ---------------------------------------------------------------------------
// What is kept
// ---------------------------------------------------------------------------

/// A client that this server trusts.
#[derive(Debug)]
pub struct Trusted {
    /// The token issued to it: the credential.
    pub token: String,
    /// Its name when it was trusted or last seen; for display only.
    pub name: String,
    /// When it was trusted, in seconds since the epoch; for display only.
    pub added_at: u64,
}

/// A server that has issued a token to this client.
#[derive(Debug)]
pub struct KnownServer {
    /// The server's public id.
    pub server_id: String,
    /// The token that it issued.
    pub token: String,
    /// The server's name, for display only.
    pub name: String,
}

/// Everything that is kept between runs.
#[derive(Debug)]
pub struct Settings {
    /// The name that other devices show.
    pub device_name: String,
    /// The public id.
    pub device_id: String,
    /// The clients that this device trusts as a server.
    pub trusted: Vec<Trusted>,
    /// The servers that know this device as a client.
    pub known_servers: Vec<KnownServer>,
    /// The mode of the last run, "server" or "client"; nothing on a new install.
    pub last_mode: Option<String>,
    /// Whether the server was listening at the end of the last run.
    pub server_was_running: bool,
}

#[verifier::ext_equal]
pub struct TrustedView {
    pub token: Seq<char>,
    pub name: Seq<char>,
    pub added_at: u64,
}

#[verifier::ext_equal]
pub struct KnownServerView {
    pub server_id: Seq<char>,
    pub token: Seq<char>,
    pub name: Seq<char>,
}

#[verifier::ext_equal]
pub struct SettingsView {
    pub device_name: Seq<char>,
    pub device_id: Seq<char>,
    pub trusted: Seq<TrustedView>,
    pub known_servers: Seq<KnownServerView>,
    pub last_mode: Option<Seq<char>>,
    pub server_was_running: bool,
}

impl View for Trusted {
    type V = TrustedView;

    open spec fn view(&self) -> TrustedView {
        TrustedView { token: self.token@, name: self.name@, added_at: self.added_at }
    }
}

impl View for KnownServer {
    type V = KnownServerView;

    open spec fn view(&self) -> KnownServerView {
        KnownServerView { server_id: self.server_id@, token: self.token@, name: self.name@ }
    }
}

impl View for Settings {
    type V = SettingsView;

    open spec fn view(&self) -> SettingsView {
        SettingsView {
            device_name: self.device_name@,
            device_id: self.device_id@,
            trusted: trusted_views(self.trusted@),
            known_servers: server_views(self.known_servers@),
            last_mode: text::opt_view(self.last_mode),
            server_was_running: self.server_was_running,
        }
    }
}

pub open spec fn trusted_views(list: Seq<Trusted>) -> Seq<TrustedView> {
    Seq::new(list.len(), |i: int| list[i]@)
}

pub open spec fn server_views(list: Seq<KnownServer>) -> Seq<KnownServerView> {
    Seq::new(list.len(), |i: int| list[i]@)
}

impl Clone for Trusted {
    fn clone(&self) -> (r: Self)
        ensures
            r@ == self@,
    {
        Trusted { token: self.token.clone(), name: self.name.clone(), added_at: self.added_at }
    }
}

impl Clone for KnownServer {
    fn clone(&self) -> (r: Self)
        ensures
            r@ == self@,
    {
        KnownServer {
            server_id: self.server_id.clone(),
            token: self.token.clone(),
            name: self.name.clone(),
        }
    }
}

impl Clone for Settings {
    fn clone(&self) -> (r: Self)
        ensures
            r@ == self@,
    {
        let mut known: Vec<KnownServer> = Vec::new();
        let n: usize = self.known_servers.len();
        let mut i: usize = 0;
        while i < n
            invariant
                n == self.known_servers@.len(),
                i <= n,
                server_views(known@) == server_views(self.known_servers@).take(i as int),
            decreases n - i,
        {
            let ghost before = server_views(known@);
            known.push(self.known_servers[i].clone());
            i = i + 1;
            assert(server_views(known@) =~= before.push(self.known_servers[i - 1]@));
            assert(server_views(self.known_servers@).take(i as int) =~= before.push(
                self.known_servers[i - 1]@,
            ));
        }
        assert(server_views(self.known_servers@).take(n as int) =~= server_views(
            self.known_servers@,
        ));
        Settings {
            device_name: self.device_name.clone(),
            device_id: self.device_id.clone(),
            trusted: copied_list(&self.trusted),
            known_servers: known,
            last_mode: opt_copy(&self.last_mode),
            server_was_running: self.server_was_running,
        }
    }
}

fn copied_list(list: &Vec<Trusted>) -> (r: Vec<Trusted>)
    ensures
        trusted_views(r@) == trusted_views(list@),
{
    let mut out: Vec<Trusted> = Vec::new();
    let n: usize = list.len();
    let mut i: usize = 0;
    while i < n
        invariant
            n == list@.len(),
            i <= n,
            trusted_views(out@) == trusted_views(list@).take(i as int),
        decreases n - i,
    {
        let ghost before = trusted_views(out@);
        out.push(list[i].clone());
        i = i + 1;
        assert(trusted_views(out@) =~= before.push(list[i - 1]@));
        assert(trusted_views(list@).take(i as int) =~= before.push(list[i - 1]@));
    }
    assert(trusted_views(list@).take(n as int) =~= trusted_views(list@));
    out
}

impl Settings {
    /// The settings of a new install: nobody is trusted, no mode is remembered,
    /// and the server does not start by itself.
    pub fn fresh(device_name: String, device_id: String) -> (r: Settings)
        ensures
            r@ == (SettingsView {
                device_name: device_name@,
                device_id: device_id@,
                trusted: Seq::empty(),
                known_servers: Seq::empty(),
                last_mode: None,
                server_was_running: false,
            }),
    {
        Settings {
            device_name,
            device_id,
            trusted: Vec::new(),
            known_servers: Vec::new(),
            last_mode: None,
            server_was_running: false,
        }
    }
}

/// The settings in memory, and whether they have changed since they were last
/// written out.
pub struct Store {
    pub settings: Settings,
    pub unsaved: bool,
}

impl Store {
    /// Holds settings that are as they were read.
    pub fn new(settings: Settings) -> (r: Store)
        ensures
            r.settings@ == settings@,
            !r.unsaved,
    {
        Store { settings, unsaved: false }
    }

    /// Whether the settings are to be written out now; they count as written
    /// afterwards.
    pub fn take_unsaved(&mut self) -> (r: bool)
        ensures
            r == old(self).unsaved,
            !final(self).unsaved,
            final(self).settings@ == old(self).settings@,
    {
        let r = self.unsaved;
        self.unsaved = false;
        r
    }
}

/// A copy of all settings.
pub fn get(store: &Store) -> (r: Settings)
    ensures
        r@ == store.settings@,
{
    store.settings.clone()
}

/// The name of this device.
pub fn device_name(store: &Store) -> (r: String)
    ensures
        r@ == store.settings@.device_name,
{
    store.settings.device_name.clone()
}

/// The public id of this device.
pub fn device_id(store: &Store) -> (r: String)
    ensures
        r@ == store.settings@.device_id,
{
    store.settings.device_id.clone()
}

/// The name that a device gets when it is renamed: the cleaned name, or the
/// fallback where nothing is left of it.
pub open spec fn new_name(name: Seq<char>, fallback: Seq<char>) -> Seq<char> {
    if clean_name(name).len() == 0 {
        fallback
    } else {
        clean_name(name)
    }
}

/// Renames this device and returns the name that it got.
pub fn rename_device(store: &mut Store, name: &str, fallback: String) -> (r: String)
    ensures
        r@ == new_name(name@, fallback@),
        final(store).settings@ == (SettingsView { device_name: r@, ..old(store).settings@ }),
        final(store).unsaved,
{
    let mut clean = sanitize_name(name);
    if clean.as_str().is_empty() {
        clean = fallback;
    }
    store.settings.device_name = clean.clone();
    store.unsaved = true;
    clean
}

/// Renames this device and returns the name that it got. Where nothing is left
/// of the name it gets the default name, so that no device goes without one; only
/// then is the host name asked for, and the call panics where
/// [`default_device_name`] does. [`rename_device`] takes the name to fall back on.
pub fn set_device_name(store: &mut Store, name: &str) -> (r: String)
    ensures
        clean_name(name@).len() > 0 ==> r@ == clean_name(name@),
        clean_name(name@).len() == 0 ==> exists|host: Option<Seq<char>>|
            r@ == #[trigger] name_of_host(host),
        0 < r@.len() <= MAX_NAME_LEN,
        final(store).settings@ == (SettingsView { device_name: r@, ..old(store).settings@ }),
        final(store).unsaved,
{
    proof {
        law_clean_name_is_safe(name@);
        assert forall|host: Option<Seq<char>>| 0 < (#[trigger] name_of_host(host)).len()
            <= MAX_NAME_LEN by {
            law_default_name_is_usable(host);
        }
    }
    let clean = sanitize_name(name);
    let fallback = if clean.as_str().is_empty() {
        default_device_name()
    } else {
        clean
    };
    rename_device(store, name, fallback)
}

/// The mode of the last run; nothing on a new install.
pub fn last_mode(store: &Store) -> (r: Option<String>)
    ensures
        text::opt_view(r) == store.settings@.last_mode,
{
    opt_copy(&store.settings.last_mode)
}

/// The two modes that there are.
pub open spec fn known_mode(mode: Seq<char>) -> bool {
    mode == "server"@ || mode == "client"@
}

/// Remembers the mode for the next start. The value decides what the next start
/// does, so anything but the two modes is ignored.
pub fn set_last_mode(store: &mut Store, mode: &str)
    ensures
        known_mode(mode@) ==> final(store).settings@ == (SettingsView {
            last_mode: Some(mode@),
            ..old(store).settings@
        }),
        !known_mode(mode@) ==> final(store).settings@ == old(store).settings@,
        final(store).unsaved == (old(store).unsaved || (known_mode(mode@) && old(
            store,
        ).settings@.last_mode != Some(mode@))),
{
    if !same_text(mode, "server") && !same_text(mode, "client") {
        return;
    }
    let same = match &store.settings.last_mode {
        Some(m) => same_text(m.as_str(), mode),
        None => false,
    };
    if same {
        return;
    }
    store.settings.last_mode = Some(mode.to_string());
    store.unsaved = true;
}

/// Whether the server was listening at the end of the last run.
pub fn server_was_running(store: &Store) -> (r: bool)
    ensures
        r == store.settings@.server_was_running,
{
    store.settings.server_was_running
}

/// Remembers whether the server is listening.
pub fn set_server_was_running(store: &mut Store, running: bool)
    ensures
        final(store).settings@ == (SettingsView {
            server_was_running: running,
            ..old(store).settings@
        }),
        final(store).unsaved == (old(store).unsaved || old(store).settings@.server_was_running
            != running),
{
    if store.settings.server_was_running == running {
        return;
    }
    store.settings.server_was_running = running;
    store.unsaved = true;
}

// ---------------------------------------------------------------------------
// Clients that are trusted
// ---------------------------------------------------------------------------

/// The client at a place is the first with the token.
pub open spec fn first_with_token(list: Seq<TrustedView>, token: Seq<char>, i: int) -> bool {
    &&& 0 <= i < list.len()
    &&& list[i].token == token
    &&& forall|j: int| 0 <= j < i ==> (#[trigger] list[j]).token != token
}

/// A token names a trusted client. The empty token names none.
pub open spec fn trusts(list: Seq<TrustedView>, token: Seq<char>) -> bool {
    token.len() > 0 && exists|i: int| 0 <= i < list.len() && (#[trigger] list[i]).token == token
}

/// The list with the name of the client that has the token brought up to date.
/// An empty name changes nothing.
pub open spec fn seen_as(list: Seq<TrustedView>, token: Seq<char>, name: Seq<char>) -> Seq<
    TrustedView,
> {
    Seq::new(
        list.len(),
        |i: int|
            if token.len() > 0 && name.len() > 0 && first_with_token(list, token, i) {
                TrustedView { name, ..list[i] }
            } else {
                list[i]
            },
    )
}

/// The list without the clients that have the token.
pub open spec fn revoked(list: Seq<TrustedView>, token: Seq<char>) -> Seq<TrustedView> {
    list.filter(|t: TrustedView| t.token != token)
}

/// Whether a client's token is trusted. Trust goes by the token alone; where it
/// is given, the name that the client now uses is remembered.
pub fn trusted_by_token(store: &mut Store, token: &str, name: &str) -> (r: bool)
    ensures
        r == trusts(old(store).settings@.trusted, token@),
        final(store).settings@ == (SettingsView {
            trusted: seen_as(old(store).settings@.trusted, token@, name@),
            ..old(store).settings@
        }),
        final(store).unsaved == (old(store).unsaved || seen_as(
            old(store).settings@.trusted,
            token@,
            name@,
        ) != old(store).settings@.trusted),
{
    let ghost list = store.settings@.trusted;
    if token.is_empty() {
        assert(seen_as(list, token@, name@) =~= list);
        return false;
    }
    let n: usize = store.settings.trusted.len();
    let mut i: usize = 0;
    while i < n && !same_text(store.settings.trusted[i].token.as_str(), token)
        invariant
            n == store.settings.trusted@.len(),
            i <= n,
            list == store.settings@.trusted,
            forall|j: int| 0 <= j < i ==> (#[trigger] list[j]).token != token@,
        decreases n - i,
    {
        i = i + 1;
    }
    if i == n {
        assert(seen_as(list, token@, name@) =~= list);
        return false;
    }
    assert(list[i as int].token == token@);
    if !name.is_empty() && !same_text(store.settings.trusted[i].name.as_str(), name) {
        let fresh = Trusted {
            token: store.settings.trusted[i].token.clone(),
            name: name.to_string(),
            added_at: store.settings.trusted[i].added_at,
        };
        store.settings.trusted.set(i, fresh);
        store.unsaved = true;
        assert(store.settings@.trusted =~= seen_as(list, token@, name@));
        assert(seen_as(list, token@, name@)[i as int].name != list[i as int].name);
    } else {
        assert(seen_as(list, token@, name@) =~= list);
    }
    true
}

/// Trusts a client from now on: issues a token, the identifier of two numbers that
/// were drawn for it, and remembers the client under it.
pub fn trust_client(store: &mut Store, name: &str, first: u64, second: u64, now: u64) -> (r:
    String)
    ensures
        r@ == identifier(first, second),
        final(store).settings@ == (SettingsView {
            trusted: old(store).settings@.trusted.push(
                TrustedView {
                    token: identifier(first, second),
                    name: clean_name(name@),
                    added_at: now,
                },
            ),
            ..old(store).settings@
        }),
        final(store).unsaved,
{
    let ghost list = store.settings@.trusted;
    let token = random_hex(first, second);
    let copy = token.clone();
    store.settings.trusted.push(Trusted { token, name: sanitize_name(name), added_at: now });
    store.unsaved = true;
    assert(store.settings@.trusted =~= list.push(
        TrustedView { token: copy@, name: clean_name(name@), added_at: now },
    ));
    copy
}

/// Withdraws the trust that rests on a token.
pub fn revoke_trusted(store: &mut Store, token: &str)
    ensures
        final(store).settings@ == (SettingsView {
            trusted: revoked(old(store).settings@.trusted, token@),
            ..old(store).settings@
        }),
        final(store).unsaved == (old(store).unsaved || exists|i: int|
            0 <= i < old(store).settings@.trusted.len() && (#[trigger] old(
                store,
            ).settings@.trusted[i]).token == token@),
{
    let ghost list = store.settings@.trusted;
    let ghost keep = |t: TrustedView| t.token != token@;
    let n: usize = store.settings.trusted.len();
    let mut kept: Vec<Trusted> = Vec::new();
    let mut removed = false;
    let mut i: usize = 0;
    proof {
        reveal(Seq::filter);
        assert(list.take(0) =~= Seq::<TrustedView>::empty());
        assert(trusted_views(kept@) =~= list.take(0).filter(keep));
    }
    while i < n
        invariant
            n == store.settings.trusted@.len(),
            list == store.settings@.trusted,
            i <= n,
            keep == (|t: TrustedView| t.token != token@),
            trusted_views(kept@) == list.take(i as int).filter(keep),
            removed == exists|j: int| 0 <= j < i && (#[trigger] list[j]).token == token@,
        decreases n - i,
    {
        let ghost before = trusted_views(kept@);
        let hit = same_text(store.settings.trusted[i].token.as_str(), token);
        proof {
            reveal(Seq::filter);
            assert(list.take(i + 1).drop_last() =~= list.take(i as int));
            assert(list.take(i + 1).last() == list[i as int]);
        }
        if hit {
            removed = true;
            assert(list[i as int].token == token@);
        } else {
            kept.push(store.settings.trusted[i].clone());
            assert(trusted_views(kept@) =~= before.push(list[i as int]));
        }
        i = i + 1;
    }
    assert(list.take(n as int) =~= list);
    store.settings.trusted = kept;
    if removed {
        store.unsaved = true;
    }
}

/// The clients that are trusted, in the order in which they were.
pub fn trusted_list(store: &Store) -> (r: Vec<Trusted>)
    ensures
        trusted_views(r@) == store.settings@.trusted,
{
    copied_list(&store.settings.trusted)
}

/// A client that has just been trusted is let in by its token.
pub proof fn law_trusted_client_is_let_in(
    list: Seq<TrustedView>,
    token: Seq<char>,
    name: Seq<char>,
    added_at: u64,
)
    requires
        token.len() > 0,
    ensures
        trusts(list.push(TrustedView { token, name, added_at }), token),
{
    let after = list.push(TrustedView { token, name, added_at });
    assert(after[list.len() as int].token == token);
}

/// Trusting one client leaves the trust in every other token as it was.
pub proof fn law_trust_is_per_token(list: Seq<TrustedView>, new: TrustedView, token: Seq<char>)
    requires
        token != new.token,
    ensures
        trusts(list.push(new), token) == trusts(list, token),
{
    let after = list.push(new);
    if trusts(after, token) {
        let i = choose|i: int| 0 <= i < after.len() && (#[trigger] after[i]).token == token;
        assert(list[i].token == token);
    }
    if trusts(list, token) {
        let i = choose|i: int| 0 <= i < list.len() && (#[trigger] list[i]).token == token;
        assert(after[i].token == token);
    }
}

/// A token that was revoked lets nobody in, and every other token does what it
/// did before.
pub proof fn law_revoked_token_is_refused(list: Seq<TrustedView>, token: Seq<char>)
    ensures
        !trusts(revoked(list, token), token),
        forall|other: Seq<char>|
            other != token ==> (#[trigger] trusts(revoked(list, token), other) == trusts(
                list,
                other,
            )),
{
    let keep = |t: TrustedView| t.token != token;
    let left = revoked(list, token);
    if trusts(left, token) {
        let i = choose|i: int| 0 <= i < left.len() && (#[trigger] left[i]).token == token;
        list.lemma_filter_pred(keep, i);
        assert(keep(left[i]));
    }
    assert forall|other: Seq<char>| other != token implies (#[trigger] trusts(left, other)
        == trusts(list, other)) by {
        if trusts(left, other) {
            let i = choose|i: int| 0 <= i < left.len() && (#[trigger] left[i]).token == other;
            list.lemma_filter_contains_rev(keep, left[i]);
            let j = choose|j: int| 0 <= j < list.len() && list[j] == left[i];
            assert(list[j].token == other);
        }
        if trusts(list, other) {
            let j = choose|j: int| 0 <= j < list.len() && (#[trigger] list[j]).token == other;
            list.lemma_filter_contains(keep, j);
            let i = choose|i: int| 0 <= i < left.len() && left[i] == list[j];
            assert(left[i].token == other);
        }
    }
}

/// What a client calls itself has no say in whom this server trusts.
pub proof fn law_names_carry_no_trust(
    list: Seq<TrustedView>,
    seen: Seq<char>,
    name: Seq<char>,
    token: Seq<char>,
)
    ensures
        trusts(seen_as(list, seen, name), token) == trusts(list, token),
{
    let after = seen_as(list, seen, name);
    if trusts(after, token) {
        let i = choose|i: int| 0 <= i < after.len() && (#[trigger] after[i]).token == token;
        assert(list[i].token == token);
    }
    if trusts(list, token) {
        let i = choose|i: int| 0 <= i < list.len() && (#[trigger] list[i]).token == token;
        assert(after[i].token == token);
    }
}

// ---------------------------------------------------------------------------
// Servers that issued a token
// ---------------------------------------------------------------------------

/// The server at a place is the first with the id.
pub open spec fn first_with_id(list: Seq<KnownServerView>, id: Seq<char>, i: int) -> bool {
    &&& 0 <= i < list.len()
    &&& list[i].server_id == id
    &&& forall|j: int| 0 <= j < i ==> (#[trigger] list[j]).server_id != id
}

pub open spec fn knows_server(list: Seq<KnownServerView>, id: Seq<char>) -> bool {
    exists|i: int| 0 <= i < list.len() && (#[trigger] list[i]).server_id == id
}

/// The token that a server issued: that of the first entry with its id. A server
/// without an id has issued none.
pub open spec fn token_of(list: Seq<KnownServerView>, id: Seq<char>) -> Option<Seq<char>>
    decreases list.len(),
{
    if id.len() == 0 || list.len() == 0 {
        None
    } else if list[0].server_id == id {
        Some(list[0].token)
    } else {
        token_of(list.skip(1), id)
    }
}

/// The list after a server has issued a token: a server that is known has its
/// entry replaced. Without an id or a token nothing changes.
pub open spec fn remembered(
    list: Seq<KnownServerView>,
    id: Seq<char>,
    token: Seq<char>,
    name: Seq<char>,
) -> Seq<KnownServerView> {
    let entry = KnownServerView { server_id: id, token, name: clean_name(name) };
    if id.len() == 0 || token.len() == 0 {
        list
    } else if knows_server(list, id) {
        Seq::new(
            list.len(),
            |i: int|
                if first_with_id(list, id, i) {
                    entry
                } else {
                    list[i]
                },
        )
    } else {
        list.push(entry)
    }
}

proof fn lemma_token_of(list: Seq<KnownServerView>, id: Seq<char>, i: int)
    requires
        id.len() > 0,
        first_with_id(list, id, i),
    ensures
        token_of(list, id) == Some(list[i].token),
    decreases list.len(),
{
    if list[0].server_id != id {
        let rest = list.skip(1);
        assert forall|j: int| 0 <= j < i - 1 implies (#[trigger] rest[j]).server_id != id by {
            assert(rest[j] == list[j + 1]);
        }
        lemma_token_of(rest, id, i - 1);
    }
}

proof fn lemma_token_of_unknown(list: Seq<KnownServerView>, id: Seq<char>)
    requires
        !knows_server(list, id),
    ensures
        token_of(list, id) is None,
    decreases list.len(),
{
    if id.len() > 0 && list.len() > 0 {
        let rest = list.skip(1);
        assert(list[0].server_id != id);
        if knows_server(rest, id) {
            let j = choose|j: int| 0 <= j < rest.len() && (#[trigger] rest[j]).server_id == id;
            assert(list[j + 1].server_id == id);
        }
        lemma_token_of_unknown(rest, id);
    }
}

fn find_server(list: &Vec<KnownServer>, id: &str) -> (r: Option<usize>)
    ensures
        match r {
            Some(i) => first_with_id(server_views(list@), id@, i as int),
            None => !knows_server(server_views(list@), id@),
        },
{
    let ghost view = server_views(list@);
    let n: usize = list.len();
    let mut i: usize = 0;
    while i < n
        invariant
            n == list@.len(),
            i <= n,
            view == server_views(list@),
            forall|j: int| 0 <= j < i ==> (#[trigger] view[j]).server_id != id@,
        decreases n - i,
    {
        if same_text(list[i].server_id.as_str(), id) {
            assert(view[i as int].server_id == id@);
            return Some(i);
        }
        assert(view[i as int].server_id != id@);
        i = i + 1;
    }
    None
}

/// The token that a server issued to this device.
pub fn token_for_server(store: &Store, server_id: &str) -> (r: Option<String>)
    ensures
        text::opt_view(r) == token_of(store.settings@.known_servers, server_id@),
{
    let ghost list = store.settings@.known_servers;
    if server_id.is_empty() {
        return None;
    }
    match find_server(&store.settings.known_servers, server_id) {
        Some(i) => {
            proof {
                lemma_token_of(list, server_id@, i as int);
            }
            Some(store.settings.known_servers[i].token.clone())
        },
        None => {
            proof {
                lemma_token_of_unknown(list, server_id@);
            }
            None
        },
    }
}

/// Remembers the token that a server issued to this device.
pub fn remember_server(store: &mut Store, server_id: &str, token: &str, name: &str)
    ensures
        final(store).settings@ == (SettingsView {
            known_servers: remembered(
                old(store).settings@.known_servers,
                server_id@,
                token@,
                name@,
            ),
            ..old(store).settings@
        }),
        final(store).unsaved == (old(store).unsaved || (server_id@.len() > 0 && token@.len()
            > 0)),
{
    let ghost list = store.settings@.known_servers;
    if server_id.is_empty() || token.is_empty() {
        return;
    }
    let entry = KnownServer {
        server_id: server_id.to_string(),
        token: token.to_string(),
        name: sanitize_name(name),
    };
    match find_server(&store.settings.known_servers, server_id) {
        Some(i) => {
            store.settings.known_servers.set(i, entry);
            assert(list[i as int].server_id == server_id@);
            assert(store.settings@.known_servers =~= remembered(
                list,
                server_id@,
                token@,
                name@,
            ));
        },
        None => {
            store.settings.known_servers.push(entry);
            assert(store.settings@.known_servers =~= remembered(
                list,
                server_id@,
                token@,
                name@,
            ));
        },
    }
    store.unsaved = true;
}

/// The token that was remembered last is the one that is used, and the tokens of
/// all other servers stay as they were: each pair of devices is on its own.
pub proof fn law_remembered_token_is_used(
    list: Seq<KnownServerView>,
    id: Seq<char>,
    token: Seq<char>,
    name: Seq<char>,
)
    requires
        id.len() > 0,
        token.len() > 0,
    ensures
        token_of(remembered(list, id, token, name), id) == Some(token),
        forall|other: Seq<char>|
            other != id ==> (#[trigger] token_of(remembered(list, id, token, name), other)
                == token_of(list, other)),
{
    let after = remembered(list, id, token, name);
    let at = lemma_first_entry(after, list, id);
    lemma_token_of(after, id, at);
    assert forall|other: Seq<char>| other != id implies (#[trigger] token_of(after, other)
        == token_of(list, other)) by {
        if knows_server(list, other) {
            let k = lemma_first_index(list, other);
            assert(after[k] == list[k]);
            assert forall|j: int| 0 <= j < k implies (#[trigger] after[j]).server_id != other by {
                assert(list[j].server_id != other);
            }
            if other.len() > 0 {
                lemma_token_of(list, other, k);
                lemma_token_of(after, other, k);
            }
        } else {
            if knows_server(after, other) {
                let k = choose|k: int|
                    0 <= k < after.len() && (#[trigger] after[k]).server_id == other;
                assert(list[k].server_id == other);
            }
            lemma_token_of_unknown(list, other);
            lemma_token_of_unknown(after, other);
        }
    }
}

proof fn lemma_first_index(list: Seq<KnownServerView>, id: Seq<char>) -> (i: int)
    requires
        knows_server(list, id),
    ensures
        first_with_id(list, id, i),
    decreases list.len(),
{
    if list[0].server_id == id {
        0
    } else {
        let rest = list.skip(1);
        let k = choose|k: int| 0 <= k < list.len() && (#[trigger] list[k]).server_id == id;
        assert(rest[k - 1].server_id == id);
        let i = lemma_first_index(rest, id) + 1;
        assert forall|j: int| 0 <= j < i implies (#[trigger] list[j]).server_id != id by {
            if j > 0 {
                assert(list[j] == rest[j - 1]);
            }
        }
        assert(list[i] == rest[i - 1]);
        i
    }
}

proof fn lemma_first_entry(
    after: Seq<KnownServerView>,
    list: Seq<KnownServerView>,
    id: Seq<char>,
) -> (i: int)
    requires
        id.len() > 0,
        exists|token: Seq<char>, name: Seq<char>|
            token.len() > 0 && after == #[trigger] remembered(list, id, token, name),
    ensures
        first_with_id(after, id, i),
        forall|token: Seq<char>, name: Seq<char>|
            token.len() > 0 && after == #[trigger] remembered(list, id, token, name)
                ==> after[i].token == token,
{
    if knows_server(list, id) {
        let i = lemma_first_index(list, id);
        assert forall|j: int| 0 <= j < i implies (#[trigger] after[j]).server_id != id by {
            assert(list[j].server_id != id);
        }
        i
    } else {
        let i = list.len() as int;
        assert forall|j: int| 0 <= j < i implies (#[trigger] after[j]).server_id != id by {
            assert(after[j] == list[j]);
        }
        i
    }
}

/// Each server stands in the list once.
pub open spec fn servers_distinct(list: Seq<KnownServerView>) -> bool {
    forall|i: int, j: int|
        0 <= i < j < list.len() ==> (#[trigger] list[i]).server_id != (#[trigger]
        list[j]).server_id
}

/// A list in which each server stands once stays so.
pub proof fn law_servers_stay_distinct(
    list: Seq<KnownServerView>,
    id: Seq<char>,
    token: Seq<char>,
    name: Seq<char>,
)
    requires
        servers_distinct(list),
    ensures
        servers_distinct(remembered(list, id, token, name)),
{
    let after = remembered(list, id, token, name);
    assert forall|i: int, j: int| 0 <= i < j < after.len() implies (#[trigger] after[i]).server_id
        != (#[trigger] after[j]).server_id by {
        if j < list.len() {
            assert(after[i].server_id == list[i].server_id);
            assert(after[j].server_id == list[j].server_id);
        } else {
            assert(after[i] == list[i]);
        }
    }
}

// ---------------------------------------------------------------------------
// What names, trust and tokens are for
// ---------------------------------------------------------------------------

/// A name that is fit to be shown is kept as it is: nothing is taken from a name
/// without control characters, of at most 40 characters and without white space at
/// its ends.
pub proof fn law_good_name_is_kept(name: Seq<char>)
    requires
        name.len() <= 40,
        forall|i: int| 0 <= i < name.len() ==> !text::control(#[trigger] name[i]),
        name.len() > 0 ==> !text::whitespace(name[0]) && !text::whitespace(name.last()),
    ensures
        clean_name(name) == name,
{
    lemma_filter_all(name);
    text::lemma_trim_identity(name);
}

/// Control characters are taken out wherever they stand, and the rest of the name
/// is treated as if they had not been there.
pub proof fn law_control_characters_do_not_count(a: Seq<char>, c: char, b: Seq<char>)
    requires
        text::control(c),
    ensures
        clean_name(a + seq![c] + b) == clean_name(a + b),
{
    lemma_printable_joins(a + seq![c], b);
    lemma_printable_joins(a, seq![c]);
    lemma_printable_joins(a, b);
    let one = seq![c];
    let none = Seq::<char>::empty();
    assert(printable(one) =~= none) by {
        reveal(Seq::filter);
        assert(one.drop_last() =~= none);
        assert(one.last() == c);
        assert(printable(none) =~= none);
    }
    assert(printable(a + seq![c] + b) =~= printable(a + b));
}

proof fn lemma_printable_joins(a: Seq<char>, b: Seq<char>)
    ensures
        printable(a + b) == printable(a) + printable(b),
    decreases b.len(),
{
    reveal(Seq::filter);
    if b.len() == 0 {
        assert(a + b =~= a);
        assert(printable(a) + printable(b) =~= printable(a));
    } else {
        lemma_printable_joins(a, b.drop_last());
        assert((a + b).drop_last() =~= a + b.drop_last());
        assert(printable(a + b) =~= printable(a) + printable(b));
    }
}

/// Of a name that is too long the first 40 characters count; what counts is trimmed
/// of the white space at its ends.
pub proof fn law_long_names_are_cut(raw: Seq<char>)
    requires
        forall|i: int| 0 <= i < raw.len() ==> !text::control(#[trigger] raw[i]),
    ensures
        raw.len() <= 40 ==> clean_name(raw) == text::trim(raw),
        raw.len() > 40 ==> clean_name(raw) == text::trim(raw.take(40)),
{
    lemma_filter_all(raw);
}

/// A device is named after its host, without the suffix that macOS appends; only
/// where nothing is left of that does it get the name for nameless devices.
pub proof fn law_device_is_named_after_its_host(host: Seq<char>)
    ensures
        clean_name(host).len() > 0 ==> name_of_host(Some(host + ".local"@)) == clean_name(host),
        clean_name(host).len() == 0 ==> name_of_host(Some(host + ".local"@)) == nameless(),
        !text::ends_with(host, ".local"@) && clean_name(host).len() > 0 ==> name_of_host(Some(host))
            == clean_name(host),
        !text::ends_with(host, ".local"@) && clean_name(host).len() == 0 ==> name_of_host(
            Some(host),
        ) == nameless(),
        name_of_host(None) == nameless(),
        nameless() == "MicSync 设备"@,
{
    reveal_strlit(".local");
    reveal_strlit("MicSync 设备");
    let full = host + ".local"@;
    assert(full.subrange(full.len() - 6, full.len() as int) =~= ".local"@);
    assert(full.take(full.len() - 6) =~= host);
    let n = nameless();
    assert(!text::ends_with(n, ".local"@)) by {
        if text::ends_with(n, ".local"@) {
            assert(n.subrange(n.len() - 6, n.len() as int)[0] == '.');
        }
    }
    law_good_name_is_kept(n);
}

/// Renaming gives the device the cleaned name, or the name to fall back on where
/// nothing is left of it.
pub proof fn law_rename_takes_what_is_left(name: Seq<char>, fallback: Seq<char>)
    ensures
        clean_name(name).len() > 0 ==> new_name(name, fallback) == clean_name(name),
        clean_name(name).len() == 0 ==> new_name(name, fallback) == fallback,
        known_mode(name) <==> name == "server"@ || name == "client"@,
{
}

/// A token lets in exactly if it is not empty and some trusted client has it.
pub proof fn law_token_lets_in_whoever_has_it(
    a: Seq<TrustedView>,
    client: TrustedView,
    b: Seq<TrustedView>,
    token: Seq<char>,
)
    ensures
        client.token.len() > 0 ==> trusts(a + seq![client] + b, client.token),
        !trusts(a, Seq::empty()),
        trusts(a, token) ==> exists|i: int| 0 <= i < a.len() && (#[trigger] a[i]).token == token,
        !trusts(Seq::empty(), token),
        trusts(a + b, token) <==> trusts(a, token) || trusts(b, token),
{
    let all = a + seq![client] + b;
    assert(all[a.len() as int] == client);
    let ab = a + b;
    if trusts(ab, token) {
        let i = choose|i: int| 0 <= i < ab.len() && (#[trigger] ab[i]).token == token;
        if i < a.len() {
            assert(a[i].token == token);
        } else {
            assert(b[i - a.len()].token == token);
        }
    }
    if trusts(a, token) {
        let i = choose|i: int| 0 <= i < a.len() && (#[trigger] a[i]).token == token;
        assert(ab[i].token == token);
    }
    if trusts(b, token) {
        let i = choose|i: int| 0 <= i < b.len() && (#[trigger] b[i]).token == token;
        assert(ab[a.len() + i].token == token);
    }
}

/// Revoking takes out the clients with the token and leaves the others as they are,
/// in order: a list loses what its parts lose.
pub proof fn law_revoking_takes_one_token_out(
    a: Seq<TrustedView>,
    b: Seq<TrustedView>,
    client: TrustedView,
    token: Seq<char>,
)
    ensures
        revoked(a + b, token) == revoked(a, token) + revoked(b, token),
        client.token == token ==> revoked(seq![client], token) == Seq::<TrustedView>::empty(),
        client.token != token ==> revoked(seq![client], token) == seq![client],
    decreases b.len(),
{
    reveal(Seq::filter);
    let one = seq![client];
    let none = Seq::<TrustedView>::empty();
    assert(one.drop_last() =~= none);
    assert(one.last() == client);
    assert(revoked(none, token) =~= none);
    if client.token != token {
        assert(revoked(one, token) =~= one);
    }
    if b.len() == 0 {
        assert(a + b =~= a);
        assert(revoked(a, token) + revoked(b, token) =~= revoked(a, token));
    } else {
        law_revoking_takes_one_token_out(a, b.drop_last(), client, token);
        assert((a + b).drop_last() =~= a + b.drop_last());
        assert(revoked(a + b, token) =~= revoked(a, token) + revoked(b, token));
    }
}

/// A client that comes back under another name is shown under it; its token and the
/// time of its trust stay, and so does every other client. Without a name nothing
/// changes.
pub proof fn law_new_name_is_remembered(
    a: Seq<TrustedView>,
    client: TrustedView,
    b: Seq<TrustedView>,
    name: Seq<char>,
)
    requires
        client.token.len() > 0,
        forall|i: int| 0 <= i < a.len() ==> (#[trigger] a[i]).token != client.token,
    ensures
        name.len() > 0 ==> seen_as(a + seq![client] + b, client.token, name) == a + seq![
            TrustedView { name, ..client },
        ] + b,
        seen_as(a + seq![client] + b, client.token, Seq::empty()) == a + seq![client] + b,
        seen_as(a, client.token, name) == a,
        seen_as(a, Seq::empty(), name) == a,
{
    let all = a + seq![client] + b;
    let at = a.len() as int;
    assert(all[at] == client);
    assert forall|i: int| 0 <= i < a.len() implies (#[trigger] all[i]).token != client.token by {
        assert(all[i] == a[i]);
    }
    assert(first_with_token(all, client.token, at));
    assert(forall|i: int| #[trigger] first_with_token(all, client.token, i) ==> i == at) by {
        assert forall|i: int| #[trigger] first_with_token(all, client.token, i) implies i == at by {
            if i > at {
                assert(all[at].token != client.token);
            } else if i < at {
                assert(all[i].token != client.token);
            }
        }
    }
    assert(seen_as(all, client.token, Seq::empty()) =~= all);
    if name.len() > 0 {
        assert(seen_as(all, client.token, name) =~= a + seq![TrustedView { name, ..client }] + b);
    }
    assert(seen_as(a, client.token, name) =~= a);
    assert(seen_as(a, Seq::empty(), name) =~= a);
}

/// A server has issued a token exactly if it is known by its id, which is not
/// empty, and the token is that of the first entry with the id.
pub proof fn law_known_server_has_its_token(list: Seq<KnownServerView>, id: Seq<char>)
    ensures
        token_of(list, id) is Some <==> id.len() > 0 && exists|i: int|
            0 <= i < list.len() && (#[trigger] list[i]).server_id == id,
        forall|i: int|
            id.len() > 0 && 0 <= i < list.len() && (#[trigger] list[i]).server_id == id && (forall|
                j: int,
            |
                0 <= j < i ==> (#[trigger] list[j]).server_id != id) ==> token_of(list, id) == Some(
                list[i].token,
            ),
        knows_server(list, id) <==> exists|i: int|
            0 <= i < list.len() && (#[trigger] list[i]).server_id == id,
{
    if id.len() > 0 {
        if knows_server(list, id) {
            let k = lemma_first_index(list, id);
            lemma_token_of(list, id, k);
        } else {
            lemma_token_of_unknown(list, id);
        }
        assert forall|i: int|
            0 <= i < list.len() && (#[trigger] list[i]).server_id == id && (forall|j: int|
                0 <= j < i ==> (#[trigger] list[j]).server_id != id) implies token_of(list, id)
            == Some(list[i].token) by {
            lemma_token_of(list, id, i);
        }
    }
}

/// A server that is remembered anew has its first entry replaced where it stands,
/// one that was not known comes behind the others; its name is cleaned. Without an
/// id or a token nothing is remembered.
pub proof fn law_server_is_remembered_once(
    a: Seq<KnownServerView>,
    known: KnownServerView,
    b: Seq<KnownServerView>,
    token: Seq<char>,
    name: Seq<char>,
)
    requires
        known.server_id.len() > 0,
        token.len() > 0,
        forall|i: int| 0 <= i < a.len() ==> (#[trigger] a[i]).server_id != known.server_id,
    ensures
        ({
            let entry = KnownServerView {
                server_id: known.server_id,
                token,
                name: clean_name(name),
            };
            &&& remembered(a + seq![known] + b, known.server_id, token, name) == a + seq![entry] + b
            &&& remembered(a, known.server_id, token, name) == a + seq![entry]
        }),
        remembered(a, Seq::empty(), token, name) == a,
        remembered(a, known.server_id, Seq::empty(), name) == a,
{
    let id = known.server_id;
    let entry = KnownServerView { server_id: id, token, name: clean_name(name) };
    let all = a + seq![known] + b;
    let at = a.len() as int;
    assert(all[at] == known);
    assert(knows_server(all, id));
    assert forall|i: int| 0 <= i < a.len() implies (#[trigger] all[i]).server_id != id by {
        assert(all[i] == a[i]);
    }
    assert(first_with_id(all, id, at));
    assert forall|i: int| #[trigger] first_with_id(all, id, i) implies i == at by {
        if i > at {
            assert(all[at].server_id != id);
        } else if i < at {
            assert(all[i].server_id != id);
        }
    }
    assert(remembered(all, id, token, name) =~= a + seq![entry] + b);
    assert(remembered(a, id, token, name) =~= a + seq![entry]);
}

/// What is known of the settings is all that they hold.
pub proof fn law_settings_are_known_whole(s: Settings, i: int)
    ensures
        s@.device_name == s.device_name@,
        s@.device_id == s.device_id@,
        s@.trusted.len() == s.trusted@.len(),
        s@.known_servers.len() == s.known_servers@.len(),
        0 <= i < s.trusted@.len() ==> s@.trusted[i] == (TrustedView {
            token: s.trusted@[i].token@,
            name: s.trusted@[i].name@,
            added_at: s.trusted@[i].added_at,
        }),
        0 <= i < s.known_servers@.len() ==> s@.known_servers[i] == (KnownServerView {
            server_id: s.known_servers@[i].server_id@,
            token: s.known_servers@[i].token@,
            name: s.known_servers@[i].name@,
        }),
        s.last_mode is None <==> s@.last_mode is None,
        s.last_mode matches Some(m) ==> s@.last_mode == Some(m@),
        s@.server_was_running == s.server_was_running,
{
}

} // verus!
