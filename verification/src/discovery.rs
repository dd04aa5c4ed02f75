//! Finding servers on the local network, in two ways that run side by side: a
//! multicast query that servers answer, and a look at the health of every host
//! of the local subnets. A device finds itself too and leaves itself out, by its
//! public id.
use vstd::prelude::*;

use crate::client::text_member_or;
use crate::client;
use crate::http::{plain_request, read_first_body, utf8_text};
use crate::http;
use crate::json::{flag_member, number_member, put, read_json, text_member, write_json, Leaf};
use crate::json;
use crate::platform::Platform;
use crate::settings::{token_for_server, SettingsView, Store};
use crate::settings;
use crate::text::{
    chars_of, comes_before, cut_once, decimal_text, parse_u16, same_text, text_starts_with,
};
use crate::text;

verus! {

/// The port of discovery packets.
pub const DISCOVERY_PORT: u16 = 47801;

/// The version of discovery packets.
pub const PROTO_V: u64 = 1;

/// How long a host of the subnet may take for each step of a probe.
pub const PROBE_TIMEOUT_MS: u64 = 300;

/// The most threads that a scan of the subnets uses.
pub const SCAN_THREADS: usize = 128;

/// How long answers to a multicast query are collected.
pub const MULTICAST_WAIT_MS: u64 = 400;

/// No more than this is read of an answer to a probe.
pub const PROBE_LIMIT: usize = 8192;

// ---------------------------------------------------------------------------
// Addresses
// ---------------------------------------------------------------------------

/// An IPv4 address.
#[derive(Debug, Clone, Copy, PartialEq, Eq, Structural)]
pub struct Ipv4 {
    pub a: u8,
    pub b: u8,
    pub c: u8,
    pub d: u8,
}

/// The multicast group of discovery packets. It lies in the block for control of
/// the local network: some systems drop multicast outside of it.
pub fn group() -> (r: Ipv4)
    ensures
        r == (Ipv4 { a: 224, b: 0, c: 0, d: 167 }),
{
    Ipv4 { a: 224, b: 0, c: 0, d: 167 }
}

/// An address as four decimals with dots.
pub open spec fn dotted(ip: Ipv4) -> Seq<char> {
    text::decimal(ip.a as nat) + seq!['.'] + text::decimal(ip.b as nat) + seq!['.']
        + text::decimal(ip.c as nat) + seq!['.'] + text::decimal(ip.d as nat)
}

/// Four numbers with dots between them, each of at most eight bits.
pub open spec fn four_numbers(t: Seq<char>) -> Option<Ipv4> {
    let dot = seq!['.'];
    match text::split_once(t, dot) {
        Some((a, t1)) => match text::split_once(t1, dot) {
            Some((b, t2)) => match text::split_once(t2, dot) {
                Some((c, d)) => octets(
                    text::number16(a),
                    text::number16(b),
                    text::number16(c),
                    text::number16(d),
                ),
                None => None,
            },
            None => None,
        },
        None => None,
    }
}

/// Four numbers as an address, if all are there and fit.
pub open spec fn octets(
    a: Option<u16>,
    b: Option<u16>,
    c: Option<u16>,
    d: Option<u16>,
) -> Option<Ipv4> {
    if a is Some && b is Some && c is Some && d is Some && a->0 < 256 && b->0 < 256 && c->0 < 256
        && d->0 < 256 {
        Some(Ipv4 { a: a->0 as u8, b: b->0 as u8, c: c->0 as u8, d: d->0 as u8 })
    } else {
        None
    }
}

/// The address that a text denotes: the one that is written so.
pub open spec fn ipv4_in(t: Seq<char>) -> Option<Ipv4> {
    match four_numbers(t) {
        Some(ip) => if dotted(ip) == t {
            Some(ip)
        } else {
            None
        },
        None => None,
    }
}

proof fn lemma_cut_decimal(n: u8, rest: Seq<char>)
    ensures
        text::split_once(text::decimal(n as nat) + seq!['.'] + rest, seq!['.']) == Some(
            (text::decimal(n as nat), rest),
        ),
        text::number16(text::decimal(n as nat)) == Some(n as u16),
{
    let head = text::decimal(n as nat);
    text::lemma_number16_reads_back(n as u16);
    text::lemma_decimal_reads_back(n as nat);
    assert forall|i: int| 0 <= i < head.len() implies #[trigger] head[i] != '.' by {
        assert(text::digit(head[i]));
    }
    text::lemma_split_at(head, '.', rest);
}

/// An address is read back from its text, and no other address is written so.
pub proof fn law_address_reads_back(ip: Ipv4)
    ensures
        ipv4_in(dotted(ip)) == Some(ip),
{
    let d = text::decimal(ip.d as nat);
    let cd = text::decimal(ip.c as nat) + seq!['.'] + d;
    let bcd = text::decimal(ip.b as nat) + seq!['.'] + cd;
    lemma_cut_decimal(ip.a, bcd);
    lemma_cut_decimal(ip.b, cd);
    lemma_cut_decimal(ip.c, d);
    text::lemma_number16_reads_back(ip.d as u16);
    assert(dotted(ip) =~= text::decimal(ip.a as nat) + seq!['.'] + bcd);
}

/// Writes an address.
pub fn ipv4_text(ip: Ipv4) -> (r: String)
    ensures
        r@ == dotted(ip),
{
    let mut out = decimal_text(ip.a as u64);
    out.push('.');
    out.append(decimal_text(ip.b as u64).as_str());
    out.push('.');
    out.append(decimal_text(ip.c as u64).as_str());
    out.push('.');
    out.append(decimal_text(ip.d as u64).as_str());
    assert(out@ =~= dotted(ip));
    out
}

fn read_octets(a: Option<u16>, b: Option<u16>, c: Option<u16>, d: Option<u16>) -> (r: Option<Ipv4>)
    ensures
        r == octets(a, b, c, d),
{
    match (a, b, c, d) {
        (Some(a), Some(b), Some(c), Some(d)) => {
            if a < 256 && b < 256 && c < 256 && d < 256 {
                Some(Ipv4 { a: a as u8, b: b as u8, c: c as u8, d: d as u8 })
            } else {
                None
            }
        },
        _ => None,
    }
}

fn read_four_numbers(t: &[char]) -> (r: Option<Ipv4>)
    ensures
        r == four_numbers(t@),
{
    let dot: [char; 1] = ['.'];
    assert(dot@ =~= seq!['.']);
    match cut_once(t, &dot) {
        Some((a, t1)) => match cut_once(t1, &dot) {
            Some((b, t2)) => match cut_once(t2, &dot) {
                Some((c, d)) => read_octets(
                    parse_u16(a),
                    parse_u16(b),
                    parse_u16(c),
                    parse_u16(d),
                ),
                None => None,
            },
            None => None,
        },
        None => None,
    }
}

/// Reads an address.
pub fn parse_ipv4(t: &str) -> (r: Option<Ipv4>)
    ensures
        r == ipv4_in(t@),
{
    let cs = chars_of(t);
    match read_four_numbers(cs.as_slice()) {
        Some(ip) => {
            let back = ipv4_text(ip);
            if same_text(back.as_str(), t) {
                Some(ip)
            } else {
                None
            }
        },
        None => None,
    }
}

/// The address is the machine itself.
pub open spec fn loopback(ip: Ipv4) -> bool {
    ip.a == 127
}

/// The address was made up by the machine for want of a better one.
pub open spec fn link_local(ip: Ipv4) -> bool {
    ip.a == 169 && ip.b == 254
}

/// The interface leads to no local network: a tunnel, a peer-to-peer link, a
/// bridge or the cellular network.
pub open spec fn off_lan(name: Seq<char>) -> bool {
    text::starts_with(name, "utun"@) || text::starts_with(name, "awdl"@) || text::starts_with(
        name,
        "llw"@,
    ) || text::starts_with(name, "bridge"@) || text::starts_with(name, "pdp_ip"@)
}

fn is_off_lan(name: &str) -> (r: bool)
    ensures
        r == off_lan(name@),
{
    text_starts_with(name, "utun") || text_starts_with(name, "awdl") || text_starts_with(
        name,
        "llw",
    ) || text_starts_with(name, "bridge") || text_starts_with(name, "pdp_ip")
}

/// A network interface: its name and its address as a text.
pub open spec fn interface_view(i: (String, String)) -> (Seq<char>, Seq<char>) {
    (i.0@, i.1@)
}

pub open spec fn interface_views(list: Seq<(String, String)>) -> Seq<(Seq<char>, Seq<char>)> {
    Seq::new(list.len(), |i: int| interface_view(list[i]))
}

/// The address of an interface, if a client on the local network can reach it.
pub open spec fn lan_address(i: (Seq<char>, Seq<char>)) -> Option<Ipv4> {
    match ipv4_in(i.1) {
        Some(ip) => if !loopback(ip) && !link_local(ip) && !off_lan(i.0) {
            Some(ip)
        } else {
            None
        },
        None => None,
    }
}

/// The addresses of interfaces that a client on the local network can reach.
pub open spec fn lan_addresses(list: Seq<(Seq<char>, Seq<char>)>) -> Seq<Ipv4>
    decreases list.len(),
{
    if list.len() == 0 {
        Seq::empty()
    } else {
        let before = lan_addresses(list.drop_last());
        match lan_address(list.last()) {
            Some(ip) => before.push(ip),
            None => before,
        }
    }
}

/// Picks the addresses that a client on the local network can reach.
pub fn reachable_ipv4s(list: &Vec<(String, String)>) -> (r: Vec<Ipv4>)
    ensures
        r@ == lan_addresses(interface_views(list@)),
{
    let ghost views = interface_views(list@);
    let mut out: Vec<Ipv4> = Vec::new();
    let count: usize = list.len();
    let mut i: usize = 0;
    assert(out@ =~= lan_addresses(views.take(0)));
    while i < count
        invariant
            count == list@.len(),
            i <= count,
            views == interface_views(list@),
            out@ == lan_addresses(views.take(i as int)),
        decreases count - i,
    {
        assert(views.take(i + 1).drop_last() =~= views.take(i as int));
        assert(views.take(i + 1).last() == interface_view(list@[i as int]));
        match parse_ipv4(list[i].1.as_str()) {
            Some(ip) => {
                if ip.a != 127 && !(ip.a == 169 && ip.b == 254) && !is_off_lan(list[i].0.as_str()) {
                    out.push(ip);
                }
            },
            None => {},
        }
        i = i + 1;
    }
    assert(views.take(count as int) =~= views);
    out
}

/// The address of an interface as it is shown to the owner. One that the machine
/// made up is shown too.
pub open spec fn shown_address(i: (Seq<char>, Seq<char>)) -> Option<Seq<char>> {
    match ipv4_in(i.1) {
        Some(ip) => if !loopback(ip) && !off_lan(i.0) {
            Some(i.1)
        } else {
            None
        },
        None => None,
    }
}

pub open spec fn shown_addresses(list: Seq<(Seq<char>, Seq<char>)>) -> Seq<Seq<char>>
    decreases list.len(),
{
    if list.len() == 0 {
        Seq::empty()
    } else {
        let before = shown_addresses(list.drop_last());
        match shown_address(list.last()) {
            Some(t) => before.push(t),
            None => before,
        }
    }
}

/// Picks the addresses to show to the owner.
pub fn shown_ips(list: &Vec<(String, String)>) -> (r: Vec<String>)
    ensures
        text::text_views(r@) == shown_addresses(interface_views(list@)),
{
    let ghost views = interface_views(list@);
    let mut out: Vec<String> = Vec::new();
    let count: usize = list.len();
    let mut i: usize = 0;
    assert(text::text_views(out@) =~= shown_addresses(views.take(0)));
    while i < count
        invariant
            count == list@.len(),
            i <= count,
            views == interface_views(list@),
            text::text_views(out@) == shown_addresses(views.take(i as int)),
        decreases count - i,
    {
        let ghost before = text::text_views(out@);
        assert(views.take(i + 1).drop_last() =~= views.take(i as int));
        assert(views.take(i + 1).last() == interface_view(list@[i as int]));
        match parse_ipv4(list[i].1.as_str()) {
            Some(ip) => {
                if ip.a != 127 && !is_off_lan(list[i].0.as_str()) {
                    out.push(list[i].1.clone());
                    assert(text::text_views(out@) =~= before.push(views[i as int].1));
                }
            },
            None => {},
        }
        i = i + 1;
    }
    assert(views.take(count as int) =~= views);
    out
}

/// `local_ip_address::list_afinet_netifas`: the machine's network interfaces by
/// name and address, each address as its text; nothing where the system does not
/// list them. What interfaces there are rests with the machine, so nothing is
/// claimed of them.
#[verifier::external_body]
fn interfaces() -> (r: Option<Vec<(String, String)>>) {
    let list = local_ip_address::list_afinet_netifas().ok()?;
    Some(list.into_iter().map(|(name, ip)| (name, ip.to_string())).collect())
}

/// The addresses of this machine that a client on the local network can reach.
/// Whatever interfaces there are, each is an address of that kind.
pub fn local_ipv4s() -> (r: Vec<Ipv4>)
    ensures
        exists|list: Seq<(Seq<char>, Seq<char>)>| r@ == #[trigger] lan_addresses(list),
{
    match interfaces() {
        Some(list) => reachable_ipv4s(&list),
        None => {
            let none: Vec<Ipv4> = Vec::new();
            assert(none@ =~= lan_addresses(Seq::empty()));
            none
        },
    }
}

/// The addresses of this machine to show to the owner.
pub fn local_ips() -> (r: Vec<String>)
    ensures
        exists|list: Seq<(Seq<char>, Seq<char>)>| text::text_views(r@) == #[trigger] shown_addresses(
            list,
        ),
{
    match interfaces() {
        Some(list) => shown_ips(&list),
        None => {
            let none: Vec<String> = Vec::new();
            assert(text::text_views(none@) =~= shown_addresses(Seq::empty()));
            none
        },
    }
}

// ---------------------------------------------------------------------------
// Who this device is
// ---------------------------------------------------------------------------

/// The public id, by which a device leaves itself out.
pub fn device_id(store: &Store) -> (r: String)
    ensures
        r@ == store.settings@.device_id,
{
    settings::device_id(store)
}

/// The name to show.
pub fn alias(store: &Store) -> (r: String)
    ensures
        r@ == store.settings@.device_name,
{
    settings::device_name(store)
}

/// The word for the kind of device on a platform.
pub open spec fn type_word(platform: Platform) -> Seq<char> {
    if platform == Platform::Ios || platform == Platform::Android {
        "mobile"@
    } else {
        "desktop"@
    }
}

/// The word for the kind of device on a platform.
pub fn device_type(platform: Platform) -> (r: &'static str)
    ensures
        r@ == type_word(platform),
{
    match platform {
        Platform::Ios | Platform::Android => "mobile",
        _ => "desktop",
    }
}

// ---------------------------------------------------------------------------
// Packets
// ---------------------------------------------------------------------------

/// A discovery packet.
#[derive(Debug)]
pub enum Msg {
    /// A client looks for servers.
    Query { device_id: String },
    /// A server says that it is there.
    Announce { alias: String, device_type: String, device_id: String, port: u16 },
}

pub enum MsgView {
    Query { device_id: Seq<char> },
    Announce { alias: Seq<char>, device_type: Seq<char>, device_id: Seq<char>, port: u16 },
}

impl View for Msg {
    type V = MsgView;

    open spec fn view(&self) -> MsgView {
        match *self {
            Msg::Query { device_id } => MsgView::Query { device_id: device_id@ },
            Msg::Announce { alias, device_type, device_id, port } => MsgView::Announce {
                alias: alias@,
                device_type: device_type@,
                device_id: device_id@,
                port,
            },
        }
    }
}

pub open spec fn msg_view(m: Option<Msg>) -> Option<MsgView> {
    match m {
        Some(m) => Some(m@),
        None => None,
    }
}

/// The packet that a document is; nothing where it is of another app or another
/// version, or where a member is missing.
pub open spec fn msg_in(o: json::Object) -> Option<MsgView> {
    if json::text_at(o, "app"@) != Some("micsync"@) || json::number_at(o, "v"@) != Some(PROTO_V) {
        None
    } else {
        match (json::text_at(o, "device_id"@), json::flag_at(o, "query"@)) {
            (Some(device_id), Some(true)) => Some(MsgView::Query { device_id }),
            (Some(device_id), Some(false)) => match (
                json::text_at(o, "alias"@),
                json::text_at(o, "device_type"@),
                json::number_at(o, "port"@),
            ) {
                (Some(alias), Some(device_type), Some(port)) => if port <= u16::MAX {
                    Some(MsgView::Announce { alias, device_type, device_id, port: port as u16 })
                } else {
                    None
                },
                _ => None,
            },
            _ => None,
        }
    }
}

/// The packet that bytes hold.
pub open spec fn msg_of(bytes: Seq<u8>) -> Option<MsgView> {
    match json::json_object(bytes) {
        Some(o) => msg_in(o),
        None => None,
    }
}

/// Reads a packet out of the members of its document.
pub fn read_msg(list: &Vec<(String, Leaf)>) -> (r: Option<Msg>)
    ensures
        msg_view(r) == msg_in(json::object_of(json::members_view(list@))),
{
    let app = text_member(list, "app")?;
    if !same_text(app.as_str(), "micsync") {
        return None;
    }
    let v = number_member(list, "v")?;
    if v != PROTO_V {
        return None;
    }
    let device_id = text_member(list, "device_id")?;
    let query = flag_member(list, "query")?;
    if query {
        return Some(Msg::Query { device_id });
    }
    let alias = text_member(list, "alias")?;
    let device_type = text_member(list, "device_type")?;
    let port: u64 = number_member(list, "port")?;
    if port > u16::MAX as u64 {
        return None;
    }
    Some(Msg::Announce { alias, device_type, device_id, port: port as u16 })
}

/// Reads a packet. Anything may come in on the port: what is no packet gives
/// nothing.
pub fn parse_msg(buf: &[u8]) -> (r: Option<Msg>)
    ensures
        msg_view(r) == msg_of(buf@),
{
    match read_json(buf) {
        Some(list) => read_msg(&list),
        None => None,
    }
}

/// The members of a query.
pub open spec fn query_members(device_id: Seq<char>) -> json::Members {
    seq![
        ("app"@, json::LeafView::Text("micsync"@)),
        ("v"@, json::LeafView::Number(PROTO_V)),
        ("query"@, json::LeafView::Flag(true)),
        ("device_id"@, json::LeafView::Text(device_id)),
    ]
}

/// The members of an announcement.
pub open spec fn announce_members(
    alias: Seq<char>,
    device_type: Seq<char>,
    device_id: Seq<char>,
    port: u16,
) -> json::Members {
    seq![
        ("app"@, json::LeafView::Text("micsync"@)),
        ("v"@, json::LeafView::Number(PROTO_V)),
        ("query"@, json::LeafView::Flag(false)),
        ("alias"@, json::LeafView::Text(alias)),
        ("device_type"@, json::LeafView::Text(device_type)),
        ("device_id"@, json::LeafView::Text(device_id)),
        ("port"@, json::LeafView::Number(port as u64)),
    ]
}

/// What the members of a query are read as.
pub proof fn law_query_is_understood(device_id: Seq<char>)
    ensures
        msg_in(json::object_of(query_members(device_id))) == Some(MsgView::Query { device_id }),
{
    let none: json::Members = Seq::empty();
    let m1 = none.push(("app"@, json::LeafView::Text("micsync"@)));
    let m2 = m1.push(("v"@, json::LeafView::Number(PROTO_V)));
    let m3 = m2.push(("query"@, json::LeafView::Flag(true)));
    let m4 = m3.push(("device_id"@, json::LeafView::Text(device_id)));
    assert(m4 =~= query_members(device_id));
    json::lemma_object_push(none, "app"@, json::LeafView::Text("micsync"@));
    json::lemma_object_push(m1, "v"@, json::LeafView::Number(PROTO_V));
    json::lemma_object_push(m2, "query"@, json::LeafView::Flag(true));
    json::lemma_object_push(m3, "device_id"@, json::LeafView::Text(device_id));
    lemma_keys();
    let o = json::object_of(m4);
    assert(o.dom().contains("app"@) && o["app"@] == json::LeafView::Text("micsync"@));
    assert(o.dom().contains("v"@) && o["v"@] == json::LeafView::Number(PROTO_V));
    assert(o.dom().contains("query"@) && o["query"@] == json::LeafView::Flag(true));
}

/// What the members of an announcement are read as.
pub proof fn law_announcement_is_understood(
    alias: Seq<char>,
    device_type: Seq<char>,
    device_id: Seq<char>,
    port: u16,
)
    ensures
        msg_in(json::object_of(announce_members(alias, device_type, device_id, port))) == Some(
            MsgView::Announce { alias, device_type, device_id, port },
        ),
{
    let none: json::Members = Seq::empty();
    let m1 = none.push(("app"@, json::LeafView::Text("micsync"@)));
    let m2 = m1.push(("v"@, json::LeafView::Number(PROTO_V)));
    let m3 = m2.push(("query"@, json::LeafView::Flag(false)));
    let m4 = m3.push(("alias"@, json::LeafView::Text(alias)));
    let m5 = m4.push(("device_type"@, json::LeafView::Text(device_type)));
    let m6 = m5.push(("device_id"@, json::LeafView::Text(device_id)));
    let m7 = m6.push(("port"@, json::LeafView::Number(port as u64)));
    assert(m7 =~= announce_members(alias, device_type, device_id, port));
    json::lemma_object_push(none, "app"@, json::LeafView::Text("micsync"@));
    json::lemma_object_push(m1, "v"@, json::LeafView::Number(PROTO_V));
    json::lemma_object_push(m2, "query"@, json::LeafView::Flag(false));
    json::lemma_object_push(m3, "alias"@, json::LeafView::Text(alias));
    json::lemma_object_push(m4, "device_type"@, json::LeafView::Text(device_type));
    json::lemma_object_push(m5, "device_id"@, json::LeafView::Text(device_id));
    json::lemma_object_push(m6, "port"@, json::LeafView::Number(port as u64));
    lemma_keys();
    let o = json::object_of(m7);
    assert(o.dom().contains("app"@) && o["app"@] == json::LeafView::Text("micsync"@));
    assert(o.dom().contains("v"@) && o["v"@] == json::LeafView::Number(PROTO_V));
    assert(o.dom().contains("query"@) && o["query"@] == json::LeafView::Flag(false));
    assert(o.dom().contains("alias"@) && o["alias"@] == json::LeafView::Text(alias));
    assert(o.dom().contains("device_type"@) && o["device_type"@] == json::LeafView::Text(
        device_type,
    ));
    assert(o.dom().contains("device_id"@) && o["device_id"@] == json::LeafView::Text(device_id));
}

/// The names of members differ.
proof fn lemma_keys()
    ensures
        "app"@.len() == 3,
        "v"@.len() == 1,
        "query"@.len() == 5,
        "query"@[0] == 'q',
        "alias"@.len() == 5,
        "alias"@[0] == 'a',
        "device_type"@.len() == 11,
        "device_id"@.len() == 9,
        "port"@.len() == 4,
{
    reveal_strlit("app");
    reveal_strlit("v");
    reveal_strlit("query");
    reveal_strlit("alias");
    reveal_strlit("device_type");
    reveal_strlit("device_id");
    reveal_strlit("port");
}

/// Writes a query. Whoever reads it finds the client's id.
pub fn encode_query(device_id: &str) -> (r: Vec<u8>)
    ensures
        r@ == vstd::utf8::encode_utf8(json::json_text(query_members(device_id@))),
        msg_of(r@) == Some(MsgView::Query { device_id: device_id@ }),
{
    let mut list: Vec<(String, Leaf)> = Vec::new();
    put(&mut list, "app", Leaf::Text("micsync".to_string()));
    put(&mut list, "v", Leaf::Number(PROTO_V));
    put(&mut list, "query", Leaf::Flag(true));
    put(&mut list, "device_id", Leaf::Text(device_id.to_string()));
    assert(json::members_view(list@) =~= query_members(device_id@));
    proof {
        law_query_is_understood(device_id@);
        lemma_keys();
    }
    let body = write_json(list);
    vstd::slice::slice_to_vec(body.as_str().as_bytes())
}

/// Writes an announcement. Whoever reads it finds the server's name, kind, id
/// and port.
pub fn encode_announce(alias: &str, device_id: &str, port: u16, platform: Platform) -> (r: Vec<u8>)
    ensures
        r@ == vstd::utf8::encode_utf8(
            json::json_text(announce_members(alias@, type_word(platform), device_id@, port)),
        ),
        msg_of(r@) == Some(
            MsgView::Announce {
                alias: alias@,
                device_type: type_word(platform),
                device_id: device_id@,
                port,
            },
        ),
{
    let mut list: Vec<(String, Leaf)> = Vec::new();
    put(&mut list, "app", Leaf::Text("micsync".to_string()));
    put(&mut list, "v", Leaf::Number(PROTO_V));
    put(&mut list, "query", Leaf::Flag(false));
    put(&mut list, "alias", Leaf::Text(alias.to_string()));
    put(&mut list, "device_type", Leaf::Text(device_type(platform).to_string()));
    put(&mut list, "device_id", Leaf::Text(device_id.to_string()));
    put(&mut list, "port", Leaf::Number(port as u64));
    assert(json::members_view(list@) =~= announce_members(
        alias@,
        type_word(platform),
        device_id@,
        port,
    ));
    proof {
        law_announcement_is_understood(alias@, type_word(platform), device_id@, port);
        lemma_keys();
    }
    let body = write_json(list);
    vstd::slice::slice_to_vec(body.as_str().as_bytes())
}

/// A packet is a query of another device.
pub open spec fn queried_by_other(m: Option<MsgView>, me: Seq<char>) -> bool {
    m matches Some(MsgView::Query { device_id }) && device_id != me
}

/// Whether a packet is to be answered: queries are, but not this device's own.
pub fn answers(buf: &[u8], me: &str) -> (r: bool)
    ensures
        r == queried_by_other(msg_of(buf@), me@),
{
    should_answer(parse_msg(buf), me)
}

/// Whether a packet that was read is to be answered.
pub fn should_answer(m: Option<Msg>, me: &str) -> (r: bool)
    ensures
        r == queried_by_other(msg_view(m), me@),
{
    match m {
        Some(Msg::Query { device_id }) => !same_text(device_id.as_str(), me),
        _ => false,
    }
}

/// A responder in use: it answers while the server listens.
pub struct ResponderHandle {
    stop: bool,
}

impl ResponderHandle {
    pub closed spec fn stopped(self) -> bool {
        self.stop
    }

    pub fn new() -> (r: ResponderHandle)
        ensures
            !r.stopped(),
    {
        ResponderHandle { stop: false }
    }

    /// Stops answering.
    pub fn stop(&mut self)
        ensures
            final(self).stopped(),
    {
        self.stop = true;
    }

    pub fn is_stopped(&self) -> (r: bool)
        ensures
            r == self.stopped(),
    {
        self.stop
    }
}

// ---------------------------------------------------------------------------
// Servers that were found
// ---------------------------------------------------------------------------

/// A server that was found.
#[derive(Debug)]
pub struct Peer {
    /// Its name.
    pub alias: String,
    /// Its address with its port.
    pub addr: String,
    /// Its kind.
    pub device_type: String,
    /// Its public id; empty for an old server.
    pub device_id: String,
    /// Whether it has issued a token to this device.
    pub authorized: bool,
}

#[verifier::ext_equal]
pub struct PeerView {
    pub alias: Seq<char>,
    pub addr: Seq<char>,
    pub device_type: Seq<char>,
    pub device_id: Seq<char>,
    pub authorized: bool,
}

impl View for Peer {
    type V = PeerView;

    open spec fn view(&self) -> PeerView {
        PeerView {
            alias: self.alias@,
            addr: self.addr@,
            device_type: self.device_type@,
            device_id: self.device_id@,
            authorized: self.authorized,
        }
    }
}

impl Clone for Peer {
    fn clone(&self) -> (r: Self)
        ensures
            r@ == self@,
    {
        Peer {
            alias: self.alias.clone(),
            addr: self.addr.clone(),
            device_type: self.device_type.clone(),
            device_id: self.device_id.clone(),
            authorized: self.authorized,
        }
    }
}

pub open spec fn peer_view(p: Option<Peer>) -> Option<PeerView> {
    match p {
        Some(p) => Some(p@),
        None => None,
    }
}

/// A server has issued a token to this device.
pub open spec fn authorized_by(s: SettingsView, id: Seq<char>) -> bool {
    settings::token_of(s.known_servers, id) is Some
}

fn is_authorized(store: &Store, id: &str) -> (r: bool)
    ensures
        r == authorized_by(store.settings@, id@),
{
    token_for_server(store, id).is_some()
}

/// The server that an answer to a multicast query comes from: the announcement
/// of another device, at the address that it came from.
pub open spec fn announced_peer(
    m: Option<MsgView>,
    s: SettingsView,
    from_ip: Seq<char>,
    me: Seq<char>,
) -> Option<PeerView> {
    match m {
        Some(MsgView::Announce { alias, device_type, device_id, port }) => if device_id == me {
            None
        } else {
            Some(
                PeerView {
                    alias,
                    addr: from_ip + seq![':'] + text::decimal(port as nat),
                    device_type,
                    device_id,
                    authorized: authorized_by(s, device_id),
                },
            )
        },
        _ => None,
    }
}

/// The server that a packet that was read announces.
pub fn peer_of_msg(store: &Store, m: Option<Msg>, from_ip: &str, me: &str) -> (r: Option<Peer>)
    ensures
        peer_view(r) == announced_peer(msg_view(m), store.settings@, from_ip@, me@),
{
    match m {
        Some(Msg::Announce { alias, device_type, device_id, port }) => {
            if same_text(device_id.as_str(), me) {
                return None;
            }
            let mut addr = from_ip.to_string();
            addr.push(':');
            addr.append(decimal_text(port as u64).as_str());
            assert(addr@ =~= from_ip@ + seq![':'] + text::decimal(port as nat));
            let authorized = is_authorized(store, device_id.as_str());
            Some(Peer { alias, addr, device_type, device_id, authorized })
        },
        _ => None,
    }
}

/// The server that a packet announces.
pub fn peer_of_packet(store: &Store, buf: &[u8], from_ip: &str, me: &str) -> (r: Option<Peer>)
    ensures
        peer_view(r) == announced_peer(msg_of(buf@), store.settings@, from_ip@, me@),
{
    peer_of_msg(store, parse_msg(buf), from_ip, me)
}

/// The server whose health document this is, found at an address. An old server
/// gives no id; it is this device if its address is one of this device's.
pub open spec fn healthy_peer(
    o: json::Object,
    s: SettingsView,
    addr: Seq<char>,
    ip: Option<Ipv4>,
    me: Seq<char>,
    mine: Seq<Ipv4>,
) -> Option<PeerView> {
    let id = client::text_or(o, "device_id"@, ""@);
    let own = match json::text_at(o, "device_id"@) {
        Some(device_id) => device_id == me,
        None => ip matches Some(ip) && mine.contains(ip),
    };
    if json::text_at(o, "app"@) != Some("micsync"@) || own {
        None
    } else {
        Some(
            PeerView {
                alias: client::text_or(o, "alias"@, "MicSync"@),
                addr,
                device_type: client::text_or(o, "device_type"@, "desktop"@),
                device_id: id,
                authorized: authorized_by(s, id),
            },
        )
    }
}

fn among(list: &[Ipv4], ip: Ipv4) -> (r: bool)
    ensures
        r == list@.contains(ip),
{
    let count: usize = list.len();
    let mut i: usize = 0;
    while i < count
        invariant
            count == list@.len(),
            i <= count,
            forall|j: int| 0 <= j < i ==> list@[j] != ip,
        decreases count - i,
    {
        if list[i] == ip {
            return true;
        }
        i = i + 1;
    }
    false
}

/// The server whose health document has these members.
pub fn peer_of_health(
    store: &Store,
    list: &Vec<(String, Leaf)>,
    addr: &str,
    ip: Option<Ipv4>,
    me: &str,
    mine: &[Ipv4],
) -> (r: Option<Peer>)
    ensures
        peer_view(r) == healthy_peer(
            json::object_of(json::members_view(list@)),
            store.settings@,
            addr@,
            ip,
            me@,
            mine@,
        ),
{
    let app = text_member(list, "app")?;
    if !same_text(app.as_str(), "micsync") {
        return None;
    }
    let device_id = match text_member(list, "device_id") {
        Some(id) => {
            if same_text(id.as_str(), me) {
                return None;
            }
            id
        },
        None => {
            match ip {
                Some(ip) => {
                    if among(mine, ip) {
                        return None;
                    }
                },
                None => {},
            }
            "".to_string()
        },
    };
    let authorized = is_authorized(store, device_id.as_str());
    Some(
        Peer {
            alias: text_member_or(list, "alias", "MicSync"),
            addr: addr.to_string(),
            device_type: text_member_or(list, "device_type", "desktop"),
            device_id,
            authorized,
        },
    )
}

/// The server that answered a probe with these bytes.
pub open spec fn probed_peer(
    resp: Seq<u8>,
    s: SettingsView,
    addr: Seq<char>,
    ip: Option<Ipv4>,
    me: Seq<char>,
    mine: Seq<Ipv4>,
) -> Option<PeerView> {
    if !vstd::utf8::valid_utf8(resp) {
        None
    } else {
        match http::first_body(vstd::utf8::decode_utf8(resp)) {
            Some(body) => match json::json_object(vstd::utf8::encode_utf8(body)) {
                Some(o) => healthy_peer(o, s, addr, ip, me, mine),
                None => None,
            },
            None => None,
        }
    }
}

/// The request of a probe.
pub fn probe_request() -> (r: String)
    ensures
        r@ == http::head_text(http::plain_request_lines("/health"@, "d"@)),
{
    plain_request("/health", "d")
}

/// Whether more of an answer is to be read.
pub fn probe_wants_more(len: usize) -> (r: bool)
    ensures
        r == (len < PROBE_LIMIT),
{
    len < PROBE_LIMIT
}

/// Judges the answer to a probe: it counts if it is of a MicSync server other
/// than this device.
pub fn probe_health(
    store: &Store,
    resp: Vec<u8>,
    addr: &str,
    ip: Option<Ipv4>,
    me: &str,
    mine: &[Ipv4],
) -> (r: Option<Peer>)
    ensures
        peer_view(r) == probed_peer(resp@, store.settings@, addr@, ip, me@, mine@),
{
    let t = utf8_text(resp)?;
    let body = read_first_body(t.as_str())?;
    let list = read_json(body.as_str().as_bytes())?;
    peer_of_health(store, &list, addr, ip, me, mine)
}

/// A scan recognizes a MicSync server by its health: an answer with the name,
/// kind and id of another device gives that server.
pub proof fn law_health_is_recognized(
    lines: Seq<Seq<char>>,
    body: Seq<char>,
    o: json::Object,
    s: SettingsView,
    addr: Seq<char>,
    ip: Option<Ipv4>,
    me: Seq<char>,
    mine: Seq<Ipv4>,
)
    requires
        lines.len() > 0,
        http::proper_lines(lines),
        http::one_line(body),
        json::json_object(vstd::utf8::encode_utf8(body)) == Some(o),
        json::text_at(o, "app"@) == Some("micsync"@),
        json::text_at(o, "device_id"@) is Some,
        json::text_at(o, "device_id"@) != Some(me),
    ensures
        probed_peer(
            vstd::utf8::encode_utf8(http::head_text(lines) + body),
            s,
            addr,
            ip,
            me,
            mine,
        ) == Some(
            PeerView {
                alias: client::text_or(o, "alias"@, "MicSync"@),
                addr,
                device_type: client::text_or(o, "device_type"@, "desktop"@),
                device_id: client::text_or(o, "device_id"@, ""@),
                authorized: authorized_by(s, client::text_or(o, "device_id"@, ""@)),
            },
        ),
{
    let resp = http::head_text(lines) + body;
    vstd::utf8::encode_utf8_valid_utf8(resp);
    vstd::utf8::encode_utf8_decode_utf8(resp);
    http::lemma_split_head(lines, body);
    text::lemma_first_at(body, http::blank(), 0);
    if let Some(i) = text::first_at(body, http::blank(), 0) {
        assert(body.subrange(i, i + 4)[1] == '\n');
        assert(body[i + 1] == '\n');
    }
    assert(http::first_body(resp) == Some(body));
}

/// No device finds itself: what is found has another id, or none and another
/// address.
pub proof fn law_nobody_finds_itself(
    m: Option<MsgView>,
    o: json::Object,
    s: SettingsView,
    from: Seq<char>,
    ip: Option<Ipv4>,
    me: Seq<char>,
    mine: Seq<Ipv4>,
)
    ensures
        announced_peer(m, s, from, me) matches Some(p) ==> p.device_id != me,
        healthy_peer(o, s, from, ip, me, mine) is Some ==> json::text_at(o, "device_id"@) != Some(
            me,
        ) && (json::text_at(o, "device_id"@) is None && ip is Some ==> !mine.contains(ip->0)),
{
}

// ---------------------------------------------------------------------------
// Scanning
// ---------------------------------------------------------------------------

/// The host of a subnet with a last octet.
pub open spec fn host_of(ip: Ipv4, last: int) -> Ipv4 {
    Ipv4 { d: last as u8, ..ip }
}

/// The hosts of the subnet of an address, without itself. The subnet is taken to
/// have eight bits, and neither its network address nor its broadcast address is
/// a host.
pub open spec fn subnet(ip: Ipv4) -> Seq<Ipv4> {
    all_hosts(ip).filter(other_than(ip))
}

/// The hosts of the subnet of an address.
pub open spec fn all_hosts(ip: Ipv4) -> Seq<Ipv4> {
    Seq::new(254, |i: int| host_of(ip, i + 1))
}

pub open spec fn other_than(ip: Ipv4) -> spec_fn(Ipv4) -> bool {
    |c: Ipv4| c != ip
}

/// Lists the hosts of the subnet of an address, without itself.
pub fn subnet_hosts(ip: Ipv4) -> (r: Vec<Ipv4>)
    ensures
        r@ == subnet(ip),
{
    let ghost all = all_hosts(ip);
    let ghost other = other_than(ip);
    let mut out: Vec<Ipv4> = Vec::new();
    let mut last: u8 = 1;
    proof {
        reveal(Seq::filter);
        assert(all.take(0) =~= Seq::<Ipv4>::empty());
    }
    while last < 255
        invariant
            1 <= last <= 255,
            all == all_hosts(ip),
            other == other_than(ip),
            out@ == all.take(last - 1).filter(other),
        decreases 255 - last,
    {
        let host = Ipv4 { a: ip.a, b: ip.b, c: ip.c, d: last };
        proof {
            reveal(Seq::filter);
            assert(all.take(last as int).drop_last() =~= all.take(last - 1));
            assert(all.take(last as int).last() == host);
        }
        if host != ip {
            out.push(host);
        }
        last = last + 1;
    }
    assert(all.take(254) =~= all);
    out
}

/// The hosts of a subnet are those that differ from the address in the last
/// octet alone, but for the network and the broadcast address.
pub proof fn law_subnet_is_the_other_hosts(ip: Ipv4, c: Ipv4)
    ensures
        subnet(ip).contains(c) <==> (c.a == ip.a && c.b == ip.b && c.c == ip.c && 1 <= c.d <= 254
            && c != ip),
{
    let all = all_hosts(ip);
    let other = other_than(ip);
    if subnet(ip).contains(c) {
        all.lemma_filter_contains_rev(other, c);
        let i = choose|i: int| 0 <= i < subnet(ip).len() && subnet(ip)[i] == c;
        all.lemma_filter_pred(other, i);
        assert(other(c));
        let k = choose|k: int| 0 <= k < all.len() && all[k] == c;
        assert(c == host_of(ip, k + 1));
    }
    if c.a == ip.a && c.b == ip.b && c.c == ip.c && 1 <= c.d <= 254 && c != ip {
        assert(all[c.d - 1] == c);
        all.lemma_filter_contains(other, c.d - 1);
    }
}

/// One more host, unless it is there.
pub open spec fn add_new(s: Seq<Ipv4>, x: Ipv4) -> Seq<Ipv4> {
    if s.contains(x) {
        s
    } else {
        s.push(x)
    }
}

pub open spec fn add_all(s: Seq<Ipv4>, xs: Seq<Ipv4>) -> Seq<Ipv4>
    decreases xs.len(),
{
    if xs.len() == 0 {
        s
    } else {
        add_new(add_all(s, xs.drop_last()), xs.last())
    }
}

/// The hosts to probe: those of all subnets, each once.
pub open spec fn targets(ips: Seq<Ipv4>) -> Seq<Ipv4>
    decreases ips.len(),
{
    if ips.len() == 0 {
        Seq::empty()
    } else {
        add_all(targets(ips.drop_last()), subnet(ips.last()))
    }
}

/// Lists the hosts to probe.
pub fn scan_targets(ips: &[Ipv4]) -> (r: Vec<Ipv4>)
    ensures
        r@ == targets(ips@),
{
    let mut out: Vec<Ipv4> = Vec::new();
    let count: usize = ips.len();
    let mut i: usize = 0;
    assert(out@ =~= targets(ips@.take(0)));
    while i < count
        invariant
            count == ips@.len(),
            i <= count,
            out@ == targets(ips@.take(i as int)),
        decreases count - i,
    {
        let ghost before = out@;
        let hosts = subnet_hosts(ips[i]);
        let total: usize = hosts.len();
        let mut k: usize = 0;
        assert(hosts@.take(0) =~= Seq::<Ipv4>::empty());
        while k < total
            invariant
                total == hosts@.len(),
                k <= total,
                out@ == add_all(before, hosts@.take(k as int)),
            decreases total - k,
        {
            assert(hosts@.take(k + 1).drop_last() =~= hosts@.take(k as int));
            assert(hosts@.take(k + 1).last() == hosts@[k as int]);
            if !among(out.as_slice(), hosts[k]) {
                out.push(hosts[k]);
            }
            k = k + 1;
        }
        assert(hosts@.take(total as int) =~= hosts@);
        assert(ips@.take(i + 1).drop_last() =~= ips@.take(i as int));
        assert(ips@.take(i + 1).last() == ips@[i as int]);
        i = i + 1;
    }
    assert(ips@.take(count as int) =~= ips@);
    out
}

proof fn lemma_add_all(s: Seq<Ipv4>, xs: Seq<Ipv4>)
    requires
        s.no_duplicates(),
    ensures
        add_all(s, xs).no_duplicates(),
        forall|x: Ipv4|
            #[trigger] add_all(s, xs).contains(x) <==> s.contains(x) || xs.contains(x),
    decreases xs.len(),
{
    if xs.len() > 0 {
        let before = xs.drop_last();
        let last = xs.last();
        lemma_add_all(s, before);
        let mid = add_all(s, before);
        let all = add_all(s, xs);
        assert forall|x: Ipv4| #[trigger] all.contains(x) <==> s.contains(x) || xs.contains(x) by {
            if all.contains(x) {
                let i = choose|i: int| 0 <= i < all.len() && all[i] == x;
                if i < mid.len() {
                    assert(mid[i] == x);
                    assert(mid.contains(x));
                    if before.contains(x) {
                        let j = choose|j: int| 0 <= j < before.len() && before[j] == x;
                        assert(xs[j] == x);
                    }
                } else {
                    assert(x == last);
                    assert(xs[xs.len() - 1] == x);
                }
            }
            if s.contains(x) || xs.contains(x) {
                if x == last {
                    if !mid.contains(x) {
                        assert(all[mid.len() as int] == x);
                    }
                } else {
                    if xs.contains(x) {
                        let j = choose|j: int| 0 <= j < xs.len() && xs[j] == x;
                        assert(before[j] == x);
                    }
                    assert(mid.contains(x));
                    let i = choose|i: int| 0 <= i < mid.len() && mid[i] == x;
                    assert(all[i] == x);
                }
            }
        }
    }
}

/// A scan probes each host of each local subnet, and none twice.
pub proof fn law_scan_covers_the_subnets(ips: Seq<Ipv4>)
    ensures
        targets(ips).no_duplicates(),
        forall|c: Ipv4|
            #[trigger] targets(ips).contains(c) <==> exists|i: int|
                0 <= i < ips.len() && subnet(#[trigger] ips[i]).contains(c),
    decreases ips.len(),
{
    if ips.len() > 0 {
        let before = ips.drop_last();
        law_scan_covers_the_subnets(before);
        lemma_add_all(targets(before), subnet(ips.last()));
        assert forall|c: Ipv4| #[trigger] targets(ips).contains(c) <==> exists|i: int|
            0 <= i < ips.len() && subnet(#[trigger] ips[i]).contains(c) by {
            if targets(ips).contains(c) {
                if targets(before).contains(c) {
                    let i = choose|i: int|
                        0 <= i < before.len() && subnet(#[trigger] before[i]).contains(c);
                    assert(ips[i] == before[i]);
                } else {
                    assert(ips[ips.len() - 1] == ips.last());
                }
            }
            if exists|i: int| 0 <= i < ips.len() && subnet(#[trigger] ips[i]).contains(c) {
                let i = choose|i: int| 0 <= i < ips.len() && subnet(#[trigger] ips[i]).contains(c);
                if i < before.len() {
                    assert(before[i] == ips[i]);
                    assert(targets(before).contains(c));
                }
            }
        }
    }
}

/// How many hosts one thread probes.
pub open spec fn chunk_len(total: int) -> int {
    if total == 0 {
        1
    } else {
        (total + SCAN_THREADS - 1) / (SCAN_THREADS as int)
    }
}

/// The share of one thread.
pub open spec fn share(all: Seq<Ipv4>, k: int) -> Seq<Ipv4> {
    let c = chunk_len(all.len() as int);
    all.subrange(
        k * c,
        if (k + 1) * c < all.len() {
            (k + 1) * c
        } else {
            all.len() as int
        },
    )
}

/// Deals the hosts out to threads: even shares in order, until all are dealt, to
/// no more threads than there may be.
pub fn scan_shares(all: &[Ipv4]) -> (r: Vec<Vec<Ipv4>>)
    ensures
        r@.len() <= SCAN_THREADS,
        forall|k: int| 0 <= k < r@.len() ==> (#[trigger] r@[k])@ == share(all@, k),
        r@.len() * chunk_len(all@.len() as int) >= all@.len(),
        r@.len() > 0 ==> (r@.len() - 1) * chunk_len(all@.len() as int) < all@.len(),
{
    let total: usize = all.len();
    let ghost c = chunk_len(total as int);
    let chunk: usize = if total == 0 {
        1
    } else {
        (total - 1) / SCAN_THREADS + 1
    };
    assert(chunk == c);
    assert(c >= 1);
    assert(c * 128 >= total);
    let mut out: Vec<Vec<Ipv4>> = Vec::new();
    let mut at: usize = 0;
    assert(0 * c == 0) by (nonlinear_arith);
    while at < total
        invariant
            total == all@.len(),
            chunk == c,
            c == chunk_len(total as int),
            c >= 1,
            at <= total,
            at == (if out@.len() * c < total {
                out@.len() * c
            } else {
                total as int
            }),
            out@.len() > 0 ==> (out@.len() - 1) * c < total,
            forall|k: int| 0 <= k < out@.len() ==> (#[trigger] out@[k])@ == share(all@, k),
        decreases total - at,
    {
        let ghost k = out@.len() as int;
        assert((k + 1) * c == k * c + c) by (nonlinear_arith);
        let end: usize = if total - at <= chunk {
            total
        } else {
            at + chunk
        };
        let part = vstd::slice::slice_to_vec(vstd::slice::slice_subrange(all, at, end));
        assert(part@ =~= share(all@, k));
        out.push(part);
        at = end;
    }
    proof {
        let n = out@.len() as int;
        if n > 128 {
            assert((n - 1) * c >= 128 * c) by (nonlinear_arith)
                requires
                    n > 128,
                    c >= 1,
            ;
        }
    }
    out
}

/// Shares one after another, up to a number of them.
pub open spec fn dealt(all: Seq<Ipv4>, count: nat) -> Seq<Ipv4>
    decreases count,
{
    if count == 0 {
        Seq::empty()
    } else {
        dealt(all, (count - 1) as nat) + share(all, count - 1)
    }
}

/// The shares together are all hosts, in order: none is left out, and none is
/// probed twice.
pub proof fn law_shares_are_complete(all: Seq<Ipv4>, count: nat)
    requires
        count * chunk_len(all.len() as int) >= all.len(),
        count > 0 ==> (count - 1) * chunk_len(all.len() as int) < all.len(),
    ensures
        dealt(all, count) == all,
{
    let c = chunk_len(all.len() as int);
    if count == 0 {
        assert(0 * c == 0) by (nonlinear_arith);
        assert(dealt(all, count) =~= all);
    } else {
        lemma_dealt(all, (count - 1) as nat);
        assert((count - 1 + 1) * c == count * c);
        assert(dealt(all, count) =~= all);
    }
}

proof fn lemma_dealt(all: Seq<Ipv4>, count: nat)
    requires
        count * chunk_len(all.len() as int) <= all.len(),
    ensures
        dealt(all, count) == all.take(count * chunk_len(all.len() as int)),
    decreases count,
{
    let c = chunk_len(all.len() as int);
    assert(c >= 1);
    if count == 0 {
        assert(0 * c == 0) by (nonlinear_arith);
        assert(dealt(all, count) =~= all.take(0));
    } else {
        let before = (count - 1) as nat;
        assert(before * c + c == count * c) by (nonlinear_arith)
            requires
                before == count - 1,
        ;
        assert(before * c >= 0) by (nonlinear_arith)
            requires
                c >= 1,
        ;
        lemma_dealt(all, before);
        assert((before + 1) * c == count * c);
        assert(all.take(before * c) + all.subrange(before * c, count * c) =~= all.take(count * c));
    }
}

// ---------------------------------------------------------------------------
// Merging
// ---------------------------------------------------------------------------

/// Servers by their addresses.
pub type Found = Map<Seq<char>, PeerView>;

pub open spec fn peer_views(list: Seq<Peer>) -> Seq<PeerView> {
    Seq::new(list.len(), |i: int| list[i]@)
}

/// Servers that answered a query: of several answers from one address the last
/// counts.
pub open spec fn answered(list: Seq<PeerView>) -> Found
    decreases list.len(),
{
    if list.len() == 0 {
        Map::empty()
    } else {
        answered(list.drop_last()).insert(list.last().addr, list.last())
    }
}

/// Servers that a scan found on top of those that are known: a scan tells less
/// and replaces nothing.
pub open spec fn with_scanned(found: Found, list: Seq<PeerView>) -> Found
    decreases list.len(),
{
    if list.len() == 0 {
        found
    } else {
        let before = with_scanned(found, list.drop_last());
        if before.dom().contains(list.last().addr) {
            before
        } else {
            before.insert(list.last().addr, list.last())
        }
    }
}

/// A list holds exactly these servers, in the order of their addresses.
pub open spec fn lists(list: Seq<PeerView>, found: Found) -> bool {
    &&& forall|i: int, j: int|
        0 <= i < j < list.len() ==> text::precedes(
            (#[trigger] list[i]).addr,
            (#[trigger] list[j]).addr,
        )
    &&& forall|i: int|
        0 <= i < list.len() ==> found.dom().contains((#[trigger] list[i]).addr)
            && found[list[i].addr] == list[i]
    &&& forall|a: Seq<char>| #[trigger]
        found.dom().contains(a) ==> exists|i: int|
            0 <= i < list.len() && (#[trigger] list[i]).addr == a
}

/// Puts a server into its place. One that is there already is replaced only if
/// that is asked.
fn place(list: &mut Vec<Peer>, p: Peer, replace: bool, Ghost(found): Ghost<Found>)
    requires
        lists(peer_views(old(list)@), found),
    ensures
        lists(
            peer_views(final(list)@),
            if found.dom().contains(p@.addr) && !replace {
                found
            } else {
                found.insert(p@.addr, p@)
            },
        ),
{
    let ghost before = peer_views(list@);
    let ghost pv = p@;
    let key = chars_of(p.addr.as_str());
    let count: usize = list.len();
    let mut k: usize = 0;
    let mut at: usize = count;
    let mut there = false;
    while k < count && at == count
        invariant
            count == list@.len(),
            k <= count,
            before == peer_views(list@),
            key@ == pv.addr,
            pv == p@,
            at == count ==> !there,
            at == count ==> forall|i: int|
                0 <= i < k ==> text::precedes((#[trigger] before[i]).addr, pv.addr),
            at < count ==> at + 1 == k && !text::precedes(before[at as int].addr, pv.addr) && there
                == (before[at as int].addr == pv.addr) && forall|i: int|
                0 <= i < at ==> text::precedes((#[trigger] before[i]).addr, pv.addr),
            at <= count,
        decreases count - k,
    {
        let other = chars_of(list[k].addr.as_str());
        assert(before[k as int].addr == other@);
        if !comes_before(other.as_slice(), key.as_slice()) {
            at = k;
            there = same_text(list[k].addr.as_str(), p.addr.as_str());
        }
        k = k + 1;
    }
    proof {
        text::lemma_precedes_total(pv.addr, pv.addr);
        if at < count {
            text::lemma_precedes_total(before[at as int].addr, pv.addr);
        }
    }
    if there {
        proof {
            assert(before[at as int].addr == pv.addr);
            assert(found.dom().contains(before[at as int].addr));
        }
        if replace {
            list.set(at, p);
            proof {
                let after = peer_views(list@);
                let more = found.insert(pv.addr, pv);
                assert(after =~= before.update(at as int, pv));
                assert forall|i: int| 0 <= i < after.len() implies more.dom().contains(
                    (#[trigger] after[i]).addr,
                ) && more[after[i].addr] == after[i] by {
                    if i != at {
                        assert(after[i] == before[i]);
                        lemma_distinct(before, i, at as int);
                    }
                }
                assert forall|i: int, j: int| 0 <= i < j < after.len() implies text::precedes(
                    (#[trigger] after[i]).addr,
                    (#[trigger] after[j]).addr,
                ) by {
                    assert(after[i].addr == before[i].addr);
                    assert(after[j].addr == before[j].addr);
                }
                assert forall|a: Seq<char>| #[trigger] more.dom().contains(a) implies exists|i: int|
                    0 <= i < after.len() && (#[trigger] after[i]).addr == a by {
                    if a == pv.addr {
                        assert(after[at as int].addr == a);
                    } else {
                        assert(found.dom().contains(a));
                        let i = choose|i: int| 0 <= i < before.len() && (#[trigger] before[i]).addr
                            == a;
                        assert(after[i].addr == before[i].addr);
                    }
                }
            }
        }
    } else {
        list.insert(at, p);
        proof {
            let after = peer_views(list@);
            assert(after =~= before.insert(at as int, pv));
            lemma_inserted(before, found, at as int, pv);
        }
    }
}

proof fn lemma_distinct(list: Seq<PeerView>, i: int, j: int)
    requires
        0 <= i < list.len(),
        0 <= j < list.len(),
        i != j,
        forall|i: int, j: int|
            0 <= i < j < list.len() ==> text::precedes(
                (#[trigger] list[i]).addr,
                (#[trigger] list[j]).addr,
            ),
    ensures
        list[i].addr != list[j].addr,
{
    text::lemma_precedes_total(list[i].addr, list[j].addr);
    if i < j {
        assert(text::precedes(list[i].addr, list[j].addr));
    } else {
        assert(text::precedes(list[j].addr, list[i].addr));
        text::lemma_precedes_total(list[j].addr, list[i].addr);
    }
}

proof fn lemma_inserted(list: Seq<PeerView>, found: Found, at: int, p: PeerView)
    requires
        lists(list, found),
        0 <= at <= list.len(),
        forall|i: int| 0 <= i < at ==> text::precedes((#[trigger] list[i]).addr, p.addr),
        at < list.len() ==> text::precedes(p.addr, list[at].addr),
    ensures
        !found.dom().contains(p.addr),
        lists(list.insert(at, p), found.insert(p.addr, p)),
{
    let after = list.insert(at, p);
    let more = found.insert(p.addr, p);
    assert forall|i: int| at <= i < list.len() implies text::precedes(
        p.addr,
        (#[trigger] list[i]).addr,
    ) by {
        if i > at {
            assert(text::precedes(list[at].addr, list[i].addr));
            text::lemma_precedes_transitive(p.addr, list[at].addr, list[i].addr);
        }
    }
    text::lemma_precedes_total(p.addr, p.addr);
    if found.dom().contains(p.addr) {
        let i = choose|i: int| 0 <= i < list.len() && (#[trigger] list[i]).addr == p.addr;
        assert(text::precedes(p.addr, p.addr));
    }
    assert forall|i: int, j: int| 0 <= i < j < after.len() implies text::precedes(
        (#[trigger] after[i]).addr,
        (#[trigger] after[j]).addr,
    ) by {
        let oi = if i < at {
            i
        } else {
            i - 1
        };
        let oj = if j < at {
            j
        } else {
            j - 1
        };
        if i != at {
            assert(after[i] == list[oi]);
        }
        if j != at {
            assert(after[j] == list[oj]);
        }
        if i != at && j != at {
            assert(text::precedes(list[oi].addr, list[oj].addr));
        }
    }
    assert forall|i: int| 0 <= i < after.len() implies more.dom().contains(
        (#[trigger] after[i]).addr,
    ) && more[after[i].addr] == after[i] by {
        if i < at {
            assert(after[i] == list[i]);
            assert(found.dom().contains(list[i].addr));
        } else if i > at {
            assert(after[i] == list[i - 1]);
            assert(found.dom().contains(list[i - 1].addr));
        }
    }
    assert forall|a: Seq<char>| #[trigger] more.dom().contains(a) implies exists|i: int|
        0 <= i < after.len() && (#[trigger] after[i]).addr == a by {
        if a == p.addr {
            assert(after[at].addr == a);
        } else {
            assert(found.dom().contains(a));
            let i = choose|i: int| 0 <= i < list.len() && (#[trigger] list[i]).addr == a;
            if i < at {
                assert(after[i] == list[i]);
            } else {
                assert(after[i + 1] == list[i]);
            }
        }
    }
}

/// Merges what both ways found: each address once, in order, and an answer to
/// the query before what a scan found.
pub fn merge_peers(multicast: &Vec<Peer>, scanned: &Vec<Peer>) -> (r: Vec<Peer>)
    ensures
        lists(
            peer_views(r@),
            with_scanned(answered(peer_views(multicast@)), peer_views(scanned@)),
        ),
{
    let ghost heard = peer_views(multicast@);
    let ghost seen = peer_views(scanned@);
    let mut out: Vec<Peer> = Vec::new();
    let count: usize = multicast.len();
    let mut i: usize = 0;
    assert(heard.take(0) =~= Seq::<PeerView>::empty());
    while i < count
        invariant
            count == multicast@.len(),
            i <= count,
            heard == peer_views(multicast@),
            lists(peer_views(out@), answered(heard.take(i as int))),
        decreases count - i,
    {
        let p = multicast[i].clone();
        assert(heard.take(i + 1).drop_last() =~= heard.take(i as int));
        assert(heard.take(i + 1).last() == p@);
        place(&mut out, p, true, Ghost(answered(heard.take(i as int))));
        i = i + 1;
    }
    assert(heard.take(count as int) =~= heard);
    let ghost base = answered(heard);
    let total: usize = scanned.len();
    let mut k: usize = 0;
    assert(seen.take(0) =~= Seq::<PeerView>::empty());
    while k < total
        invariant
            total == scanned@.len(),
            k <= total,
            seen == peer_views(scanned@),
            lists(peer_views(out@), with_scanned(base, seen.take(k as int))),
        decreases total - k,
    {
        let p = scanned[k].clone();
        assert(seen.take(k + 1).drop_last() =~= seen.take(k as int));
        assert(seen.take(k + 1).last() == p@);
        place(&mut out, p, false, Ghost(with_scanned(base, seen.take(k as int))));
        k = k + 1;
    }
    assert(seen.take(total as int) =~= seen);
    out
}

/// Merging settles the list: no two lists hold the same servers in order.
pub proof fn law_merged_list_is_settled(a: Seq<PeerView>, b: Seq<PeerView>, found: Found)
    requires
        lists(a, found),
        lists(b, found),
    ensures
        a == b,
{
    lemma_listed_prefix(a, b, found, a.len());
    lemma_listed_prefix(b, a, found, b.len());
    assert(a =~= b);
}

proof fn lemma_listed_prefix(a: Seq<PeerView>, b: Seq<PeerView>, found: Found, n: nat)
    requires
        lists(a, found),
        lists(b, found),
        n <= a.len(),
    ensures
        n <= b.len(),
        forall|i: int| 0 <= i < n ==> a[i] == b[i],
    decreases n,
{
    if n > 0 {
        let last = n - 1;
        lemma_listed_prefix(a, b, found, last as nat);
        assert(found.dom().contains(a[last].addr));
        let k = choose|k: int| 0 <= k < b.len() && (#[trigger] b[k]).addr == a[last].addr;
        if k < last {
            assert(a[k] == b[k]);
            lemma_distinct(a, k, last);
        }
        if k > last {
            assert(found.dom().contains(b[last].addr));
            let m = choose|m: int| 0 <= m < a.len() && (#[trigger] a[m]).addr == b[last].addr;
            if m < last {
                assert(a[m] == b[m]);
                lemma_distinct(b, m, last);
            } else {
                assert(text::precedes(b[last].addr, b[k].addr));
                if m == last {
                    text::lemma_precedes_total(b[k].addr, b[k].addr);
                } else {
                    assert(text::precedes(a[last].addr, a[m].addr));
                    text::lemma_precedes_transitive(b[last].addr, a[last].addr, a[m].addr);
                    text::lemma_precedes_total(b[last].addr, b[last].addr);
                }
            }
        }
        assert(found[a[last].addr] == a[last]);
        assert(found[b[last].addr] == b[last]);
    }
}

// ---------------------------------------------------------------------------
// What discovery is for
// ---------------------------------------------------------------------------

/// The server at a place of a list is the last with an address.
pub open spec fn last_at(list: Seq<PeerView>, addr: Seq<char>, i: int) -> bool {
    &&& 0 <= i < list.len()
    &&& list[i].addr == addr
    &&& forall|j: int| i < j < list.len() ==> (#[trigger] list[j]).addr != addr
}

/// The server at a place of a list is the first with an address.
pub open spec fn first_at_addr(list: Seq<PeerView>, addr: Seq<char>, i: int) -> bool {
    &&& 0 <= i < list.len()
    &&& list[i].addr == addr
    &&& forall|j: int| 0 <= j < i ==> (#[trigger] list[j]).addr != addr
}

/// Some server of a list has the address.
pub open spec fn found_at(list: Seq<PeerView>, addr: Seq<char>) -> bool {
    exists|i: int| 0 <= i < list.len() && (#[trigger] list[i]).addr == addr
}

proof fn lemma_answered(list: Seq<PeerView>, addr: Seq<char>)
    ensures
        answered(list).dom().contains(addr) <==> found_at(list, addr),
        forall|i: int| #[trigger] last_at(list, addr, i) ==> answered(list)[addr] == list[i],
    decreases list.len(),
{
    if list.len() > 0 {
        let before = list.drop_last();
        lemma_answered(before, addr);
        let end = list.len() - 1;
        if found_at(list, addr) && list[end].addr != addr {
            let i = choose|i: int| 0 <= i < list.len() && (#[trigger] list[i]).addr == addr;
            assert(before[i].addr == addr);
        }
        if found_at(before, addr) {
            let i = choose|i: int| 0 <= i < before.len() && (#[trigger] before[i]).addr == addr;
            assert(list[i].addr == addr);
        }
        if list[end].addr == addr {
            assert(found_at(list, addr));
        }
        assert forall|i: int| #[trigger] last_at(list, addr, i) implies answered(list)[addr]
            == list[i] by {
            if i < end {
                assert(list[end].addr != addr);
                assert(last_at(before, addr, i)) by {
                    assert forall|j: int| i < j < before.len() implies (#[trigger] before[j]).addr
                        != addr by {
                        assert(before[j] == list[j]);
                    }
                }
            }
        }
    }
}

proof fn lemma_with_scanned(found: Found, list: Seq<PeerView>, addr: Seq<char>)
    ensures
        with_scanned(found, list).dom().contains(addr) <==> found.dom().contains(addr) || found_at(
            list,
            addr,
        ),
        found.dom().contains(addr) ==> with_scanned(found, list)[addr] == found[addr],
        !found.dom().contains(addr) ==> forall|i: int| #[trigger]
            first_at_addr(list, addr, i) ==> with_scanned(found, list)[addr] == list[i],
    decreases list.len(),
{
    if list.len() > 0 {
        let before = list.drop_last();
        lemma_with_scanned(found, before, addr);
        let end = list.len() - 1;
        if found_at(list, addr) && list[end].addr != addr {
            let i = choose|i: int| 0 <= i < list.len() && (#[trigger] list[i]).addr == addr;
            assert(before[i].addr == addr);
        }
        if found_at(before, addr) {
            let i = choose|i: int| 0 <= i < before.len() && (#[trigger] before[i]).addr == addr;
            assert(list[i].addr == addr);
        }
        if list[end].addr == addr {
            assert(found_at(list, addr));
        }
        if !found.dom().contains(addr) {
            assert forall|i: int| #[trigger] first_at_addr(list, addr, i) implies with_scanned(
                found,
                list,
            )[addr] == list[i] by {
                if i < end {
                    assert(first_at_addr(before, addr, i)) by {
                        assert(before[i] == list[i]);
                        assert forall|j: int| 0 <= j < i implies (#[trigger] before[j]).addr
                            != addr by {
                            assert(before[j] == list[j]);
                        }
                    }
                    assert(found_at(before, addr));
                } else {
                    if found_at(before, addr) {
                        let j = choose|j: int|
                            0 <= j < before.len() && (#[trigger] before[j]).addr == addr;
                        assert(list[j].addr == addr);
                    }
                }
            }
        }
    }
}

/// The merged list holds an address exactly if one of the two ways found a server
/// there, and once. What it holds of it is the last answer to the query from that
/// address, or, where none came, the first server that the scan found there. The
/// list is in the order of the addresses.
pub proof fn law_merging_loses_nothing(
    multicast: Seq<PeerView>,
    scanned: Seq<PeerView>,
    list: Seq<PeerView>,
    addr: Seq<char>,
)
    requires
        lists(list, with_scanned(answered(multicast), scanned)),
    ensures
        found_at(list, addr) <==> found_at(multicast, addr) || found_at(scanned, addr),
        forall|i: int, k: int|
            0 <= i < list.len() && list[i].addr == addr && #[trigger] last_at(multicast, addr, k)
                ==> #[trigger] list[i] == multicast[k],
        forall|i: int, k: int|
            0 <= i < list.len() && list[i].addr == addr && !found_at(multicast, addr) && #[trigger]
                first_at_addr(scanned, addr, k) ==> #[trigger] list[i] == scanned[k],
        forall|i: int, j: int|
            0 <= i < j < list.len() ==> text::precedes(
                (#[trigger] list[i]).addr,
                (#[trigger] list[j]).addr,
            ),
        forall|i: int, j: int|
            0 <= i < j < list.len() ==> (#[trigger] list[i]).addr != (#[trigger] list[j]).addr,
{
    let base = answered(multicast);
    let found = with_scanned(base, scanned);
    lemma_answered(multicast, addr);
    lemma_with_scanned(base, scanned, addr);
    if found_at(list, addr) {
        let i = choose|i: int| 0 <= i < list.len() && (#[trigger] list[i]).addr == addr;
        assert(found.dom().contains(list[i].addr));
    }
    if found.dom().contains(addr) {
        assert(found_at(list, addr));
    }
    assert forall|i: int, k: int|
        0 <= i < list.len() && list[i].addr == addr && #[trigger] last_at(
            multicast,
            addr,
            k,
        ) implies #[trigger] list[i] == multicast[k] by {
        assert(multicast[k].addr == addr);
        assert(found_at(multicast, addr));
        assert(found[list[i].addr] == list[i]);
    }
    assert forall|i: int, k: int|
        0 <= i < list.len() && list[i].addr == addr && !found_at(multicast, addr) && #[trigger]
            first_at_addr(scanned, addr, k) implies #[trigger] list[i] == scanned[k] by {
        assert(found[list[i].addr] == list[i]);
    }
    assert forall|i: int, j: int| 0 <= i < j < list.len() implies (#[trigger] list[i]).addr != (
    #[trigger] list[j]).addr by {
        lemma_distinct(list, i, j);
    }
}

/// An address is read from exactly its own text.
pub proof fn law_address_has_one_text(t: Seq<char>, ip: Ipv4)
    ensures
        ipv4_in(t) == Some(ip) <==> t == text::decimal(ip.a as nat) + seq!['.'] + text::decimal(
            ip.b as nat,
        ) + seq!['.'] + text::decimal(ip.c as nat) + seq!['.'] + text::decimal(ip.d as nat),
{
    law_address_reads_back(ip);
}

/// The words that begin the names of interfaces which lead to no local network.
pub open spec fn leads_off(name: Seq<char>) -> bool {
    ||| name.len() >= 4 && name.take(4) == "utun"@
    ||| name.len() >= 4 && name.take(4) == "awdl"@
    ||| name.len() >= 3 && name.take(3) == "llw"@
    ||| name.len() >= 6 && name.take(6) == "bridge"@
    ||| name.len() >= 6 && name.take(6) == "pdp_ip"@
}

proof fn lemma_leads_off(name: Seq<char>)
    ensures
        off_lan(name) <==> leads_off(name),
{
    reveal_strlit("utun");
    reveal_strlit("awdl");
    reveal_strlit("llw");
    reveal_strlit("bridge");
    reveal_strlit("pdp_ip");
    if name.len() >= 3 {
        assert(name.take(3) =~= name.subrange(0, 3));
    }
    if name.len() >= 4 {
        assert(name.take(4) =~= name.subrange(0, 4));
    }
    if name.len() >= 6 {
        assert(name.take(6) =~= name.subrange(0, 6));
    }
}

/// Of the machine's addresses, those count that are of the fourth version, neither
/// of the machine itself nor made up, and not of an interface that leads elsewhere.
/// To the owner the made up ones are shown too. A list gives what its parts give,
/// in order.
pub proof fn law_lan_addresses_are_picked(
    a: Seq<(Seq<char>, Seq<char>)>,
    b: Seq<(Seq<char>, Seq<char>)>,
    name: Seq<char>,
    ip: Ipv4,
    other: Seq<char>,
)
    requires
        ipv4_in(other) is None,
    ensures
        lan_addresses(a + b) == lan_addresses(a) + lan_addresses(b),
        shown_addresses(a + b) == shown_addresses(a) + shown_addresses(b),
        lan_addresses(seq![(name, dotted(ip))]) == (if ip.a != 127 && !(ip.a == 169 && ip.b == 254)
            && !leads_off(name) {
            seq![ip]
        } else {
            Seq::empty()
        }),
        shown_addresses(seq![(name, dotted(ip))]) == (if ip.a != 127 && !leads_off(name) {
            seq![dotted(ip)]
        } else {
            Seq::empty()
        }),
        lan_addresses(seq![(name, other)]) == Seq::<Ipv4>::empty(),
        shown_addresses(seq![(name, other)]) == Seq::<Seq<char>>::empty(),
    decreases b.len(),
{
    let none: Seq<(Seq<char>, Seq<char>)> = Seq::empty();
    let one = seq![(name, dotted(ip))];
    let bad = seq![(name, other)];
    law_address_reads_back(ip);
    lemma_leads_off(name);
    assert(one.drop_last() =~= none);
    assert(bad.drop_last() =~= none);
    assert(one.last() == (name, dotted(ip)));
    assert(bad.last() == (name, other));
    assert(lan_addresses(none) =~= Seq::empty());
    assert(shown_addresses(none) =~= Seq::empty());
    assert(Seq::<Ipv4>::empty().push(ip) =~= seq![ip]);
    assert(Seq::<Seq<char>>::empty().push(dotted(ip)) =~= seq![dotted(ip)]);
    if b.len() == 0 {
        assert(a + b =~= a);
        assert(lan_addresses(a) + lan_addresses(b) =~= lan_addresses(a));
        assert(shown_addresses(a) + shown_addresses(b) =~= shown_addresses(a));
    } else {
        law_lan_addresses_are_picked(a, b.drop_last(), name, ip, other);
        assert((a + b).drop_last() =~= a + b.drop_last());
        assert(lan_addresses(a + b) =~= lan_addresses(a) + lan_addresses(b));
        assert(shown_addresses(a + b) =~= shown_addresses(a) + shown_addresses(b));
    }
}

/// A document is a packet only if it is of this app and version and has an id; then
/// the flag says whether it is a query or an announcement, and the packet holds
/// what the document does.
pub proof fn law_packets_are_told_apart(o: json::Object)
    ensures
        msg_in(o) is Some ==> json::text_at(o, "app"@) == Some("micsync"@) && json::number_at(
            o,
            "v"@,
        ) == Some(1u64) && json::text_at(o, "device_id"@) is Some && json::flag_at(o, "query"@)
            is Some,
        json::text_at(o, "app"@) == Some("micsync"@) && json::number_at(o, "v"@) == Some(1u64)
            && json::text_at(o, "device_id"@) is Some && json::flag_at(o, "query"@) == Some(true)
            ==> msg_in(o) == Some(
            MsgView::Query { device_id: json::text_at(o, "device_id"@)->0 },
        ),
        json::text_at(o, "app"@) == Some("micsync"@) && json::number_at(o, "v"@) == Some(1u64)
            && json::text_at(o, "device_id"@) is Some && json::flag_at(o, "query"@) == Some(false)
            && json::text_at(o, "alias"@) is Some && json::text_at(o, "device_type"@) is Some
            && json::number_at(o, "port"@) is Some && json::number_at(o, "port"@)->0 <= 65535
            ==> msg_in(o) == Some(
            MsgView::Announce {
                alias: json::text_at(o, "alias"@)->0,
                device_type: json::text_at(o, "device_type"@)->0,
                device_id: json::text_at(o, "device_id"@)->0,
                port: json::number_at(o, "port"@)->0 as u16,
            },
        ),
        msg_in(o) is Some && json::flag_at(o, "query"@) == Some(false) ==> json::text_at(
            o,
            "alias"@,
        ) is Some && json::text_at(o, "device_type"@) is Some && json::number_at(o, "port"@) is Some
            && json::number_at(o, "port"@)->0 <= 65535,
        forall|bytes: Seq<u8>|
            json::json_object(bytes) == Some(o) ==> #[trigger] msg_of(bytes) == msg_in(o),
        forall|bytes: Seq<u8>|
            json::json_object(bytes) is None ==> #[trigger] msg_of(bytes) is None,
{
}

/// A server answers the queries of other devices, and nothing else.
pub proof fn law_queries_of_others_are_answered(device_id: Seq<char>, me: Seq<char>, port: u16)
    ensures
        queried_by_other(Some(MsgView::Query { device_id }), me) <==> device_id != me,
        !queried_by_other(None, me),
        !queried_by_other(
            Some(MsgView::Announce { alias: me, device_type: me, device_id, port }),
            me,
        ),
        forall|m: Option<MsgView>|
            #[trigger] queried_by_other(m, me) ==> m is Some && m->0 is Query,
{
}

/// The announcement of another device gives a server, at the address that it came
/// from and the port that it names; nothing else gives one.
pub proof fn law_announcement_gives_a_server(
    alias: Seq<char>,
    device_type: Seq<char>,
    device_id: Seq<char>,
    port: u16,
    s: SettingsView,
    from: Seq<char>,
    me: Seq<char>,
)
    ensures
        ({
            let m = Some(MsgView::Announce { alias, device_type, device_id, port });
            &&& device_id == me ==> announced_peer(m, s, from, me) is None
            &&& device_id != me ==> announced_peer(m, s, from, me) == Some(
                PeerView {
                    alias,
                    addr: from + seq![':'] + text::decimal(port as nat),
                    device_type,
                    device_id,
                    authorized: authorized_by(s, device_id),
                },
            )
        }),
        announced_peer(None, s, from, me) is None,
        announced_peer(Some(MsgView::Query { device_id }), s, from, me) is None,
{
}

/// A server counts as one that has issued a token exactly if it is known by its id
/// with one; the answers of other servers have no say in it.
pub proof fn law_authorized_means_a_token(
    s: SettingsView,
    id: Seq<char>,
    token: Seq<char>,
    name: Seq<char>,
)
    requires
        id.len() > 0,
        token.len() > 0,
    ensures
        authorized_by(s, id) <==> settings::knows_server(s.known_servers, id),
        ({
            let after = SettingsView {
                known_servers: settings::remembered(s.known_servers, id, token, name),
                ..s
            };
            &&& authorized_by(after, id)
            &&& forall|other: Seq<char>|
                other != id ==> #[trigger] authorized_by(after, other) == authorized_by(s, other)
        }),
        !authorized_by(s, Seq::empty()),
{
    settings::law_remembered_token_is_used(s.known_servers, id, token, name);
    settings::law_known_server_has_its_token(s.known_servers, id);
    settings::law_known_server_has_its_token(s.known_servers, Seq::empty());
}

/// A health document of this app gives a server, unless it is this device: one with
/// this device's id, or one without an id at an address of this device. What an
/// old server leaves out has a default.
pub proof fn law_health_gives_a_server(
    o: json::Object,
    s: SettingsView,
    addr: Seq<char>,
    ip: Option<Ipv4>,
    me: Seq<char>,
    mine: Seq<Ipv4>,
)
    ensures
        healthy_peer(o, s, addr, ip, me, mine) is Some <==> {
            &&& json::text_at(o, "app"@) == Some("micsync"@)
            &&& json::text_at(o, "device_id"@) != Some(me)
            &&& json::text_at(o, "device_id"@) is Some || ip is None || !mine.contains(ip->0)
        },
        healthy_peer(o, s, addr, ip, me, mine) matches Some(p) ==> {
            &&& p.addr == addr
            &&& json::text_at(o, "alias"@) is Some ==> p.alias == json::text_at(o, "alias"@)->0
            &&& json::text_at(o, "alias"@) is None ==> p.alias == "MicSync"@
            &&& json::text_at(o, "device_type"@) is Some ==> p.device_type == json::text_at(
                o,
                "device_type"@,
            )->0
            &&& json::text_at(o, "device_type"@) is None ==> p.device_type == "desktop"@
            &&& json::text_at(o, "device_id"@) is Some ==> p.device_id == json::text_at(
                o,
                "device_id"@,
            )->0
            &&& json::text_at(o, "device_id"@) is None ==> p.device_id.len() == 0
            &&& p.authorized == authorized_by(s, p.device_id)
        },
{
    reveal_strlit("");
}

/// An answer to a probe that is no text, has no body or holds no JSON gives no
/// server; any other gives what its document does.
pub proof fn law_probe_reads_the_document(
    resp: Seq<u8>,
    s: SettingsView,
    addr: Seq<char>,
    ip: Option<Ipv4>,
    me: Seq<char>,
    mine: Seq<Ipv4>,
)
    ensures
        !vstd::utf8::valid_utf8(resp) ==> probed_peer(resp, s, addr, ip, me, mine) is None,
        vstd::utf8::valid_utf8(resp) ==> match http::first_body(vstd::utf8::decode_utf8(resp)) {
            None => probed_peer(resp, s, addr, ip, me, mine) is None,
            Some(body) => match json::json_object(vstd::utf8::encode_utf8(body)) {
                None => probed_peer(resp, s, addr, ip, me, mine) is None,
                Some(o) => probed_peer(resp, s, addr, ip, me, mine) == healthy_peer(
                    o,
                    s,
                    addr,
                    ip,
                    me,
                    mine,
                ),
            },
        },
{
}

/// The hosts of a subnet come in ascending order, each once.
pub proof fn law_subnet_ascends(ip: Ipv4, i: int, j: int)
    requires
        0 <= i < j < subnet(ip).len(),
    ensures
        subnet(ip)[i].d < subnet(ip)[j].d,
{
    lemma_hosts_ascend(ip, 254);
    assert(all_hosts(ip).take(254) =~= all_hosts(ip));
}

proof fn lemma_hosts_ascend(ip: Ipv4, n: int)
    requires
        0 <= n <= 254,
    ensures
        ({
            let part = all_hosts(ip).take(n).filter(other_than(ip));
            &&& forall|i: int, j: int|
                0 <= i < j < part.len() ==> (#[trigger] part[i]).d < (#[trigger] part[j]).d
            &&& forall|i: int| 0 <= i < part.len() ==> (#[trigger] part[i]).d <= n
        }),
    decreases n,
{
    reveal(Seq::filter);
    let all = all_hosts(ip);
    if n > 0 {
        lemma_hosts_ascend(ip, n - 1);
        assert(all.take(n).drop_last() =~= all.take(n - 1));
        assert(all.take(n).last() == all[n - 1]);
        assert(all[n - 1] == host_of(ip, n));
        assert(host_of(ip, n).d == n);
        let before = all.take(n - 1).filter(other_than(ip));
        let part = all.take(n).filter(other_than(ip));
        assert(part == before || part == before.push(all[n - 1]));
    } else {
        assert(all.take(0) =~= Seq::<Ipv4>::empty());
    }
}

/// Adding a subnet to a scan adds its hosts that were not to be probed yet, behind
/// the others: the order in which the others come stays as it is.
pub proof fn law_scan_adds_subnets_at_the_end(ips: Seq<Ipv4>, ip: Ipv4)
    ensures
        targets(ips).len() <= targets(ips.push(ip)).len(),
        targets(ips.push(ip)).take(targets(ips).len() as int) == targets(ips),
        forall|c: Ipv4|
            #[trigger] targets(ips.push(ip)).contains(c) <==> targets(ips).contains(c)
                || subnet(ip).contains(c),
        targets(Seq::empty()) == Seq::<Ipv4>::empty(),
{
    assert(ips.push(ip).drop_last() =~= ips);
    law_scan_covers_the_subnets(ips);
    lemma_add_all(targets(ips), subnet(ip));
    lemma_add_all_keeps(targets(ips), subnet(ip));
    assert forall|c: Ipv4| #[trigger] targets(ips.push(ip)).contains(c) <==> targets(ips).contains(c)
        || subnet(ip).contains(c) by {
        assert(add_all(targets(ips), subnet(ip)).contains(c) <==> targets(ips).contains(c)
            || subnet(ip).contains(c));
    }
}

proof fn lemma_add_all_keeps(s: Seq<Ipv4>, xs: Seq<Ipv4>)
    ensures
        s.len() <= add_all(s, xs).len(),
        add_all(s, xs).take(s.len() as int) == s,
    decreases xs.len(),
{
    if xs.len() > 0 {
        lemma_add_all_keeps(s, xs.drop_last());
        let mid = add_all(s, xs.drop_last());
        assert(add_all(s, xs).take(s.len() as int) =~= mid.take(s.len() as int));
    } else {
        assert(s.take(s.len() as int) =~= s);
    }
}

/// The work is shared out: no thread gets more than a 128th of the hosts, rounded
/// up, and only the last one may get less.
pub proof fn law_shares_are_even(all: Seq<Ipv4>, k: int)
    requires
        all.len() > 0,
        0 <= k,
        k * chunk_len(all.len() as int) < all.len(),
    ensures
        ({
            let c = chunk_len(all.len() as int);
            &&& 128 * (c - 1) < all.len() <= 128 * c
            &&& 0 < share(all, k).len() <= c
            &&& (k + 1) * c <= all.len() ==> share(all, k).len() == c
            &&& forall|i: int| 0 <= i < share(all, k).len() ==> #[trigger] share(all, k)[i] == all[k
                * c + i]
        }),
{
    let c = chunk_len(all.len() as int);
    assert((k + 1) * c == k * c + c) by (nonlinear_arith);
    assert(k * c >= 0) by (nonlinear_arith)
        requires
            k >= 0,
            c >= 0,
    ;
}

/// Phones and tablets announce themselves as mobile, every other device as desktop.
pub proof fn law_kind_of_device_is_announced(platform: Platform)
    ensures
        platform == Platform::Ios || platform == Platform::Android <==> type_word(platform)
            == "mobile"@,
        platform != Platform::Ios && platform != Platform::Android <==> type_word(platform)
            == "desktop"@,
{
    reveal_strlit("mobile");
    reveal_strlit("desktop");
    assert("mobile"@.len() != "desktop"@.len());
}

/// What is known of a server that was found, of an interface and of a packet is all
/// that they hold.
pub proof fn law_finds_are_known_whole(
    list: Seq<Peer>,
    i: int,
    interfaces: Seq<(String, String)>,
    m: Msg,
)
    ensures
        peer_views(list).len() == list.len(),
        0 <= i < list.len() ==> peer_views(list)[i] == (PeerView {
            alias: list[i].alias@,
            addr: list[i].addr@,
            device_type: list[i].device_type@,
            device_id: list[i].device_id@,
            authorized: list[i].authorized,
        }),
        0 <= i < list.len() ==> peer_view(Some(list[i])) == Some(peer_views(list)[i]),
        peer_view(None) is None,
        interface_views(interfaces).len() == interfaces.len(),
        0 <= i < interfaces.len() ==> interface_views(interfaces)[i] == (
            interfaces[i].0@,
            interfaces[i].1@,
        ),
        m matches Msg::Query { device_id } ==> msg_view(Some(m)) == Some(
            MsgView::Query { device_id: device_id@ },
        ),
        m matches Msg::Announce { alias, device_type, device_id, port } ==> msg_view(Some(m))
            == Some(
            MsgView::Announce {
                alias: alias@,
                device_type: device_type@,
                device_id: device_id@,
                port,
            },
        ),
        msg_view(None) is None,
{
}

} // verus!
