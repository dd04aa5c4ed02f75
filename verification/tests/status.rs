use micsync::client::{ClientHandle, ServerIdent};
use micsync::follow;
use micsync::platform::Platform;
use micsync::server::{start, Decision, Kind};
use micsync::settings::{set_last_mode, set_server_was_running, Settings, Store};
use micsync::status::{
    decision_of, device_info, driver_url, follow_device, follow_status, list_devices,
    make_client_status, notification_body, notification_title, pending_changed, pending_of,
    restore_server, server_status, should_notify, tray_entry, tray_tooltip,
};

fn store() -> Store {
    Store::new(Settings::fresh("Mac".to_string(), "id-1".to_string()))
}

#[test]
fn answers_of_the_owner() {
    assert_eq!(decision_of(false, true), Decision::Deny);
    assert_eq!(decision_of(false, false), Decision::Deny);
    assert_eq!(decision_of(true, true), Decision::Always);
    assert_eq!(decision_of(true, false), Decision::Once);
}

#[test]
fn the_server_starts_by_itself_only_if_it_ran() {
    let mut s = store();
    assert!(!restore_server(&s), "not on a new install");
    set_server_was_running(&mut s, true);
    assert!(restore_server(&s));
    set_last_mode(&mut s, "client");
    assert!(!restore_server(&s), "not as a client");
    set_last_mode(&mut s, "server");
    assert!(restore_server(&s));
}

#[test]
fn server_status_shows_the_pending_request() {
    let idle = server_status(None, &Some("port taken".to_string()));
    assert!(!idle.running);
    assert_eq!(idle.port, 47800);
    assert_eq!(idle.error.as_deref(), Some("port taken"));

    let mut st = store();
    let mut h = start(Some("USB".to_string()), 5000);
    assert!(pending_of(&h).is_none());
    h.ask(&mut st, Kind::Authorize, "Pad".to_string(), "", "p:1".to_string(), "p".to_string());
    h.captured(250);
    let status = server_status(Some(&h), &None);
    assert!(status.running);
    assert_eq!(status.port, 5000);
    assert_eq!(status.device, "USB");
    assert_eq!(status.stream_addr, "");
    assert_eq!(status.level, 250);
    assert_eq!(status.wave, vec![250]);
    assert_eq!(status.wave_seq, 1);
    let p = status.pending.unwrap();
    assert_eq!((p.name.as_str(), p.addr.as_str(), p.kind.as_str()), ("Pad", "p:1", "authorize"));
}

#[test]
fn the_owner_is_told_of_changes() {
    let mut st = store();
    let mut h = start(None, 0);
    let none = pending_of(&h);
    assert!(!pending_changed(&none, &None));
    h.ask(&mut st, Kind::Stream, "Pad".to_string(), "", "p:1".to_string(), "p".to_string());
    let some = pending_of(&h);
    assert!(pending_changed(&none, &some));
    assert!(!pending_changed(&some, &pending_of(&h)));
    assert!(pending_changed(&some, &none));
    assert_eq!(tray_tooltip(&some), "MicSync — 「Pad」等待确认");
    assert_eq!(tray_tooltip(&none), "MicSync");
    assert_eq!(tray_entry("Pad"), "处理「Pad」的请求…");
    assert_eq!(notification_title("Pad"), "「Pad」想使用这台设备的麦克风");
    assert!(notification_body("authorize").contains("不急"));
    assert!(notification_body("stream").starts_with("30 秒内未处理将自动拒绝"));
    assert!(!should_notify(true, true));
    assert!(should_notify(true, false));
    assert!(should_notify(false, false));
}

#[test]
fn client_and_follow_status() {
    let none = make_client_status(None);
    assert_eq!((none.connected, none.mode.as_str()), (false, "ended"));
    let server = ServerIdent { id: "s".to_string(), name: "S".to_string() };
    let mut c = ClientHandle::new("h:1".to_string(), server);
    c.output_ready("BlackHole".to_string(), 1000);
    c.sound_arrived(&[1, 2, 3]);
    let shown = make_client_status(Some(&c));
    assert!(shown.connected);
    assert_eq!(shown.mode, "connecting");
    assert_eq!(shown.output_device, "BlackHole");
    assert_eq!(shown.buffer_ms, 3);

    let idle = follow_status(None, None);
    assert_eq!((idle.running, idle.phase.as_str()), (false, "armed"));
    let f = follow::start("h:1".to_string(), "BlackHole".to_string(), Platform::MacOs);
    let shown = follow_status(f.ok().as_ref(), Some(&c));
    assert!(shown.running);
    assert_eq!(shown.phase, "authorizing");
    assert_eq!(shown.client.addr, "h:1");
}

#[test]
fn devices_and_drivers() {
    let outputs = vec![Some("Speakers".to_string()), None, Some("BlackHole 2ch".to_string())];
    let d = list_devices(&vec![Some("Mic".to_string())], &outputs, Platform::MacOs);
    assert_eq!(d.inputs, vec!["Mic"]);
    assert_eq!(d.outputs, vec!["Speakers", "BlackHole 2ch"]);
    assert!(d.virtual_mic_installed);
    assert!(!list_devices(&Vec::new(), &outputs, Platform::Windows).virtual_mic_installed);
    assert_eq!(driver_url(Platform::Windows), "https://vb-audio.com/Cable/");
    assert_eq!(driver_url(Platform::Other), "https://existential.audio/blackhole/");
    let info = device_info(&store(), Platform::of("android"));
    assert_eq!((info.name.as_str(), info.device_type.as_str()), ("Mac", "mobile"));
    let named = follow_device(Some("X".to_string()), None);
    assert_eq!(named.as_deref(), Ok("X"));
    let resolved = follow_device(Some(String::new()), Some("BlackHole".to_string()));
    assert_eq!(resolved.as_deref(), Ok("BlackHole"));
    assert_eq!(follow_device(None, None).err().as_deref(), Some("找不到可用的输出设备"));
}

#[test]
fn platforms_by_name() {
    assert_eq!(Platform::of("macos"), Platform::MacOs);
    assert_eq!(Platform::of("windows"), Platform::Windows);
    assert_eq!(Platform::of("ios"), Platform::Ios);
    assert_eq!(Platform::of("linux"), Platform::Other);
}
