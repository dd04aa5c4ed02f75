use std::collections::hash_map::RandomState;
use std::hash::{BuildHasher, Hasher};

use micsync::settings::{
    default_device_name, device_id, device_name, device_name_for_host, get, last_mode, now_secs,
    random_hex, remember_server, rename_device, revoke_trusted, sanitize_name, server_was_running,
    set_device_name, set_last_mode, set_server_was_running, token_for_server, trust_client,
    trusted_by_token, trusted_list, Settings, Store, MAX_NAME_LEN,
};

fn store() -> Store {
    Store::new(Settings::fresh("Mac".to_string(), "id-1".to_string()))
}

fn draw() -> String {
    let a = RandomState::new().build_hasher().finish();
    let b = RandomState::new().build_hasher().finish();
    random_hex(a, b)
}

#[test]
fn sanitize_strips_control_chars_and_limits_length() {
    assert_eq!(sanitize_name("我的\r\nMac"), "我的Mac");
    assert_eq!(sanitize_name("  张三的 Mac  "), "张三的 Mac");
    assert_eq!(sanitize_name(&"啊".repeat(100)).chars().count(), MAX_NAME_LEN);
    assert_eq!(sanitize_name("\u{0}\u{7}"), "");
}

#[test]
fn sanitizing_twice_changes_nothing() {
    let odd = format!("{} {}", "x".repeat(39), "tail");
    let once = sanitize_name(&odd);
    assert_eq!(once, "x".repeat(39));
    assert_eq!(sanitize_name(&once), once);
}

#[test]
fn random_hex_is_unique_and_long_enough() {
    let a = draw();
    let b = draw();
    assert_eq!(a.len(), 32);
    assert_ne!(a, b, "two draws differ");
}

#[test]
fn identifiers_are_padded() {
    assert_eq!(random_hex(1, 0xabc), "00000000000000010000000000000abc");
    assert_eq!(random_hex(u64::MAX, 0), "ffffffffffffffff0000000000000000");
}

#[test]
fn last_mode_rejects_unknown_values_and_defaults_to_fresh_install() {
    let mut s = store();
    assert_eq!(last_mode(&s), None);
    assert!(!server_was_running(&s));
    set_last_mode(&mut s, "attacker-controlled");
    assert_eq!(last_mode(&s), None, "an unknown mode is not kept");
    assert!(!s.unsaved);
    set_last_mode(&mut s, "client");
    assert_eq!(last_mode(&s).as_deref(), Some("client"));
    assert!(s.take_unsaved());
    set_last_mode(&mut s, "client");
    assert!(!s.unsaved, "nothing changed");
    set_last_mode(&mut s, "server");
    assert_eq!(last_mode(&s).as_deref(), Some("server"));
    set_server_was_running(&mut s, true);
    assert!(server_was_running(&s));
    set_server_was_running(&mut s, false);
    assert!(!server_was_running(&s));
}

#[test]
fn default_name_drops_local_suffix() {
    let n = default_device_name();
    assert!(!n.ends_with(".local"), "got {n}");
    assert!(!n.is_empty());
}

#[test]
fn default_name_by_host() {
    assert_eq!(device_name_for_host(Some("studio.local")), "studio");
    assert_eq!(device_name_for_host(Some("a.local.local")), "a.local");
    assert_eq!(device_name_for_host(Some("plain")), "plain");
    assert_eq!(device_name_for_host(Some(".local")), "MicSync 设备");
    assert_eq!(device_name_for_host(Some("")), "MicSync 设备");
    assert_eq!(device_name_for_host(None), "MicSync 设备");
}

#[test]
fn renaming_cleans_and_falls_back() {
    let mut s = store();
    assert_eq!(set_device_name(&mut s, " 书房\n "), "书房");
    assert_eq!(device_name(&s), "书房");
    assert!(s.unsaved);
    assert_eq!(set_device_name(&mut s, "\n"), default_device_name());
    assert_eq!(rename_device(&mut s, "", "host".to_string()), "host");
    assert_eq!(device_id(&s), "id-1");
}

#[test]
fn trust_goes_by_the_token() {
    let mut s = store();
    assert!(!trusted_by_token(&mut s, "", "x"));
    let t1 = "00000000000000010000000000000002";
    let token = trust_client(&mut s, "Tablet\n", 1, 2, 5);
    assert_eq!(token, t1);
    assert_eq!(trusted_list(&s)[0].token, t1);
    assert_eq!(trusted_list(&s)[0].name, "Tablet");
    assert_eq!(trusted_list(&s)[0].added_at, 5);
    s.take_unsaved();
    assert!(trusted_by_token(&mut s, t1, ""));
    assert!(!s.unsaved);
    assert!(trusted_by_token(&mut s, t1, "Renamed"));
    assert_eq!(trusted_list(&s)[0].name, "Renamed");
    assert!(s.take_unsaved());
    // The public id and the name are no credentials.
    assert!(!trusted_by_token(&mut s, "id-1", "Renamed"));
    revoke_trusted(&mut s, "unknown");
    assert!(!s.unsaved);
    revoke_trusted(&mut s, t1);
    assert!(s.unsaved);
    assert!(!trusted_by_token(&mut s, t1, ""));
    assert!(trusted_list(&s).is_empty());
}

#[test]
fn each_server_has_its_own_token() {
    let mut s = store();
    remember_server(&mut s, "a", "ta", "A");
    remember_server(&mut s, "b", "tb", "B");
    remember_server(&mut s, "a", "ta2", "A again");
    assert_eq!(token_for_server(&s, "a").as_deref(), Some("ta2"));
    assert_eq!(token_for_server(&s, "b").as_deref(), Some("tb"));
    assert_eq!(token_for_server(&s, "c"), None);
    assert_eq!(token_for_server(&s, ""), None);
    assert_eq!(s.settings.known_servers.len(), 2);
    remember_server(&mut s, "", "t", "x");
    remember_server(&mut s, "d", "", "x");
    assert_eq!(s.settings.known_servers.len(), 2);
    let copy = get(&s);
    assert_eq!(copy.known_servers[0].name, "A again");
}

#[test]
fn a_clock_before_the_epoch_reads_zero() {
    assert_eq!(now_secs(Some(12)), 12);
    assert_eq!(now_secs(None), 0);
}
