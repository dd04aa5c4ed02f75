use micsync::discovery::{
    alias, answers, device_id, device_type, encode_announce, encode_query, group, ipv4_text,
    local_ips, local_ipv4s, merge_peers, parse_ipv4, parse_msg, peer_of_packet, probe_health,
    probe_request, probe_wants_more, reachable_ipv4s, scan_shares, scan_targets, shown_ips,
    subnet_hosts, Ipv4, Msg, Peer, ResponderHandle, DISCOVERY_PORT, SCAN_THREADS,
};
use micsync::platform::Platform;
use micsync::server::start;
use micsync::settings::{remember_server, Settings, Store};

fn store() -> Store {
    Store::new(Settings::fresh("Mac".to_string(), "my-fp".to_string()))
}

fn ip(a: u8, b: u8, c: u8, d: u8) -> Ipv4 {
    Ipv4 { a, b, c, d }
}

#[test]
fn device_id_is_stable_within_process() {
    let s = store();
    assert_eq!(device_id(&s), device_id(&s));
    assert!(!device_id(&s).is_empty());
    assert_eq!(alias(&s), "Mac");
}

#[test]
fn query_roundtrip() {
    let buf = encode_query("abc123");
    match parse_msg(&buf) {
        Some(Msg::Query { device_id }) => assert_eq!(device_id, "abc123"),
        other => panic!("{other:?}"),
    }
}

#[test]
fn announce_roundtrip() {
    let buf = encode_announce("我的 Mac", "fp1", 47800, Platform::MacOs);
    match parse_msg(&buf) {
        Some(Msg::Announce { alias, device_type: kind, device_id, port }) => {
            assert_eq!(alias, "我的 Mac");
            assert_eq!(kind, device_type(Platform::MacOs));
            assert_eq!(device_id, "fp1");
            assert_eq!(port, 47800);
        }
        other => panic!("{other:?}"),
    }
}

#[test]
fn parse_rejects_foreign_and_malformed() {
    assert!(parse_msg(b"not json").is_none());
    assert!(parse_msg(br#"{"app":"localsend","v":1,"query":true,"device_id":"x"}"#).is_none());
    assert!(parse_msg(br#"{"app":"micsync","v":99,"query":true,"device_id":"x"}"#).is_none());
    assert!(parse_msg(br#"{"app":"micsync","v":1,"query":false}"#).is_none());
}

#[test]
fn packets_with_odd_members_are_rejected() {
    let head = r#"{"app":"micsync","v":1,"query":false,"device_id":"x","alias":"a","device_type":"d","port":"#;
    assert!(parse_msg(format!("{head}65535}}").as_bytes()).is_some());
    assert!(parse_msg(format!("{head}65536}}").as_bytes()).is_none());
    assert!(parse_msg(format!("{head}-1}}").as_bytes()).is_none());
    assert!(parse_msg(format!("{head}1.5}}").as_bytes()).is_none());
    assert!(parse_msg(format!("{head}\"80\"}}").as_bytes()).is_none());
    assert!(parse_msg(br#"{"app":"micsync","v":1,"query":1,"device_id":"x"}"#).is_none());
    assert!(parse_msg(br#"[{"app":"micsync","v":1,"query":true,"device_id":"x"}]"#).is_none());
    // Of two members of one name the last counts.
    let twice = br#"{"app":"x","app":"micsync","v":1,"query":true,"device_id":"x"}"#;
    assert!(parse_msg(twice).is_some());
    assert!(parse_msg(b"\xff{}").is_none());
}

#[test]
fn subnet_hosts_covers_24_excluding_self() {
    let hosts = subnet_hosts(ip(192, 168, 1, 10));
    assert_eq!(hosts.len(), 253, "1..=254 without itself");
    assert!(hosts.contains(&ip(192, 168, 1, 1)));
    assert!(hosts.contains(&ip(192, 168, 1, 254)));
    assert!(!hosts.contains(&ip(192, 168, 1, 10)), "not itself");
    assert!(!hosts.contains(&ip(192, 168, 1, 255)), "not the broadcast address");
}

fn answer(body: &str) -> Vec<u8> {
    format!(
        "HTTP/1.1 200 OK\r\nContent-Type: application/json\r\nContent-Length: {}\r\nConnection: close\r\n\r\n{}",
        body.len(),
        body
    )
    .into_bytes()
}

fn probe(body: &str, me: &str, mine: &[Ipv4]) -> Option<Peer> {
    let here = Some(ip(127, 0, 0, 1));
    probe_health(&store(), answer(body), "127.0.0.1:4711", here, me, mine)
}

#[test]
fn probe_identifies_micsync_server() {
    let peer = probe(
        r#"{"status":"ok","app":"micsync","alias":"张三的 Mac","device_type":"desktop","device_id":"remote-fp"}"#,
        "my-fp",
        &[],
    )
    .expect("a MicSync server");
    assert_eq!(peer.alias, "张三的 Mac");
    assert_eq!(peer.device_id, "remote-fp");
    assert_eq!(peer.addr, "127.0.0.1:4711");
    assert!(!peer.authorized);
}

#[test]
fn probe_filters_self_by_device_id() {
    let found = probe(
        r#"{"status":"ok","app":"micsync","alias":"我自己","device_type":"desktop","device_id":"same-fp"}"#,
        "same-fp",
        &[],
    );
    assert!(found.is_none(), "a device leaves itself out");
}

#[test]
fn probe_finds_legacy_server_without_fingerprint() {
    let peer = probe(r#"{"status":"ok","app":"micsync","streaming":false}"#, "my-fp", &[])
        .expect("an old server is found too");
    assert_eq!(peer.alias, "MicSync");
    assert_eq!(peer.device_type, "desktop");
    assert!(peer.device_id.is_empty());
}

#[test]
fn probe_filters_legacy_self_by_local_ip() {
    let mine = [ip(127, 0, 0, 1)];
    let found = probe(r#"{"status":"ok","app":"micsync","streaming":false}"#, "my-fp", &mine);
    assert!(found.is_none(), "an old server on this machine is this device");
}

#[test]
fn probe_ignores_non_micsync_http() {
    assert!(probe(r#"{"status":"ok","app":"something-else"}"#, "my-fp", &[]).is_none());
    let s = store();
    assert!(probe_health(&s, b"junk".to_vec(), "a", None, "me", &[]).is_none());
    assert!(probe_health(&s, vec![0xff], "a", None, "me", &[]).is_none());
    assert!(probe_health(&s, answer("not json"), "a", None, "me", &[]).is_none());
}

#[test]
fn a_scan_finds_a_server_by_its_health() {
    let mut s = store();
    remember_server(&mut s, "srv", "tok", "Studio");
    let health = start(None, 0).health("Studio", "mobile", "srv").into_bytes();
    let peer = probe_health(&s, health, "10.0.0.9:47800", None, "my-fp", &[]).unwrap();
    assert_eq!(peer.alias, "Studio");
    assert_eq!(peer.device_type, "mobile");
    assert!(peer.authorized);
    assert_eq!(
        probe_request(),
        "GET /health HTTP/1.1\r\nHost: d\r\nConnection: close\r\n\r\n"
    );
    assert!(probe_wants_more(8191) && !probe_wants_more(8192));
}

#[test]
fn only_queries_of_others_are_answered() {
    assert!(answers(&encode_query("other"), "me"));
    assert!(!answers(&encode_query("me"), "me"));
    assert!(!answers(&encode_announce("a", "other", 1, Platform::Other), "me"));
    assert!(!answers(b"junk", "me"));
}

#[test]
fn announcements_of_others_are_servers() {
    let s = store();
    let packet = encode_announce("Studio", "srv", 47800, Platform::Ios);
    let peer = peer_of_packet(&s, &packet, "10.0.0.9", "my-fp").unwrap();
    assert_eq!(peer.addr, "10.0.0.9:47800");
    assert_eq!(peer.device_type, "mobile");
    assert!(peer_of_packet(&s, &packet, "10.0.0.9", "srv").is_none());
    assert!(peer_of_packet(&s, &encode_query("srv"), "10.0.0.9", "my-fp").is_none());
}

fn peer(addr: &str, alias: &str) -> Peer {
    Peer {
        alias: alias.to_string(),
        addr: addr.to_string(),
        device_type: "desktop".to_string(),
        device_id: String::new(),
        authorized: false,
    }
}

#[test]
fn both_ways_are_merged_in_order() {
    let multicast = vec![peer("b:1", "first"), peer("a:1", "A"), peer("b:1", "last")];
    let scanned = vec![peer("c:1", "C"), peer("a:1", "worse"), peer("c:1", "C again")];
    let list = merge_peers(&multicast, &scanned);
    let shown: Vec<(String, String)> = list.into_iter().map(|p| (p.addr, p.alias)).collect();
    let expected = vec![
        ("a:1".to_string(), "A".to_string()),
        ("b:1".to_string(), "last".to_string()),
        ("c:1".to_string(), "C".to_string()),
    ];
    assert_eq!(shown, expected);
    assert!(merge_peers(&Vec::new(), &Vec::new()).is_empty());
}

#[test]
fn addresses_are_read_and_written() {
    assert_eq!(ipv4_text(ip(10, 0, 200, 1)), "10.0.200.1");
    assert_eq!(parse_ipv4("10.0.200.1"), Some(ip(10, 0, 200, 1)));
    for bad in ["", "10.0.0", "10.0.0.256", "10.0.0.1.2", "10.0.0.01", "+1.0.0.0", "::1", "a.b.c.d"]
    {
        assert_eq!(parse_ipv4(bad), None, "{bad}");
    }
    assert_eq!(group(), ip(224, 0, 0, 167));
    assert_eq!(DISCOVERY_PORT, 47801);
}

fn pair(name: &str, addr: &str) -> (String, String) {
    (name.to_string(), addr.to_string())
}

#[test]
fn only_interfaces_on_the_lan_count() {
    let list = vec![
        pair("lo0", "127.0.0.1"),
        pair("en0", "192.168.1.5"),
        pair("en1", "169.254.3.4"),
        pair("en0", "fe80::1"),
        pair("utun3", "10.8.0.2"),
        pair("awdl0", "10.9.0.2"),
        pair("llw0", "10.9.0.3"),
        pair("bridge100", "192.168.64.1"),
        pair("pdp_ip0", "100.64.0.1"),
        pair("eth0", "10.0.0.7"),
    ];
    assert_eq!(reachable_ipv4s(&list), vec![ip(192, 168, 1, 5), ip(10, 0, 0, 7)]);
    assert_eq!(shown_ips(&list), vec!["192.168.1.5", "169.254.3.4", "10.0.0.7"]);
}

#[test]
fn this_machine_lists_its_interfaces() {
    // Whatever there is, what is shown reads as an address.
    for t in local_ips() {
        assert!(parse_ipv4(&t).is_some(), "{t}");
    }
    for i in local_ipv4s() {
        assert!(i.a != 127);
        assert!(local_ips().contains(&ipv4_text(i)));
    }
}

#[test]
fn a_scan_covers_each_host_once() {
    let ips = [ip(10, 0, 0, 1), ip(10, 0, 0, 2), ip(10, 0, 1, 1)];
    let targets = scan_targets(&ips);
    // Two addresses in one subnet: each of them is a host to the other.
    assert_eq!(targets.len(), 254 + 253);
    let shares = scan_shares(&targets);
    assert!(shares.len() <= SCAN_THREADS);
    assert_eq!(shares.concat(), targets);
    assert!(scan_shares(&[]).is_empty());
    assert_eq!(scan_shares(&targets[..129])[0].len(), 2);
    assert_eq!(scan_shares(&targets[..128]).len(), 128);
}

#[test]
fn a_responder_stops() {
    let mut r = ResponderHandle::new();
    assert!(!r.is_stopped());
    r.stop();
    assert!(r.is_stopped());
}
