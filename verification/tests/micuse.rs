use micsync::micuse::MicUse;
use micsync::micuse::{macos, unsupported, windows};

fn device(id: u32, name: &str) -> macos::Device {
    macos::Device { id, name: Some(name.to_string()) }
}

#[test]
fn selectors_are_four_character_codes() {
    assert_eq!(macos::fourcc(b"glob"), macos::SCOPE_GLOBAL);
    assert_eq!(macos::fourcc(b"dev#"), macos::PROP_DEVICES);
    assert_eq!(macos::fourcc(b"lnam"), macos::PROP_NAME);
    assert_eq!(macos::fourcc(b"prs#"), macos::PROP_PROCESS_LIST);
    assert_eq!(macos::fourcc(b"ppid"), macos::PROP_PROC_PID);
    assert_eq!(macos::fourcc(b"pdv#"), macos::PROP_PROC_DEVICES);
    assert_eq!(macos::fourcc(b"piri"), macos::PROP_PROC_IS_RUNNING_INPUT);
    assert_eq!(macos::fourcc(b"gone"), macos::PROP_DEV_RUNNING_SOMEWHERE);
    let a = macos::addr(macos::PROP_NAME);
    assert_eq!(a.selector, macos::PROP_NAME);
    assert_eq!(a.scope, macos::SCOPE_GLOBAL);
    assert_eq!(a.element, 0);
}

#[test]
fn the_exact_device_goes_before_a_similar_one() {
    let list = Some(vec![
        macos::Device { id: 1, name: None },
        device(2, "BlackHole 2ch Copy"),
        device(3, "BlackHole"),
        device(4, "BlackHole 2ch"),
    ]);
    assert_eq!(macos::find_monitor_target("BlackHole 2ch", &list), Some(4));
    assert_eq!(macos::find_monitor_target("BlackHole 2", &list), Some(2));
    assert_eq!(macos::find_monitor_target("Speakers", &list), None);
    assert_eq!(macos::find_monitor_target("BlackHole 2ch", &None), None);
}

#[test]
fn running_is_the_value_one() {
    assert!(macos::device_running_somewhere(Some(1)));
    assert!(!macos::device_running_somewhere(Some(0)));
    assert!(!macos::device_running_somewhere(None));
}

fn process(pid: u32, running: u32, devices: Option<Vec<u32>>) -> macos::Process {
    macos::Process { pid: Some(pid), running_input: Some(running), devices }
}

#[test]
fn other_processes_count_unless_they_capture_elsewhere() {
    let me = 10;
    let own = Some(vec![process(10, 1, None)]);
    assert_eq!(macos::other_process_capturing(&7, &own, me), MicUse::Idle);
    let hidden = Some(vec![process(11, 1, Some(Vec::new()))]);
    assert_eq!(macos::other_process_capturing(&7, &hidden, me), MicUse::InUse);
    let unknown = Some(vec![process(11, 1, None)]);
    assert_eq!(macos::other_process_capturing(&7, &unknown, me), MicUse::InUse);
    let elsewhere = Some(vec![process(11, 1, Some(vec![3]))]);
    assert_eq!(macos::other_process_capturing(&7, &elsewhere, me), MicUse::Idle);
    let here = Some(vec![process(11, 0, None), process(12, 1, Some(vec![3, 7]))]);
    assert_eq!(macos::other_process_capturing(&7, &here, me), MicUse::InUse);
    assert_eq!(macos::other_process_capturing(&7, &None, me), MicUse::Unsupported);
}

fn end(name: &str, id: &str) -> windows::Endpoint {
    windows::Endpoint { name: Some(name.to_string()), id: Some(id.to_string()) }
}

fn target(name: &str, list: Vec<windows::Endpoint>) -> Option<String> {
    windows::find_monitor_target(name, &Some(list)).map(|t| t.capture_id)
}

#[test]
fn the_capture_end_pairs_with_the_render_end() {
    let list = vec![
        end("CABLE Output (Other)", "x"),
        end("CABLE Output (VB-Audio)", "y"),
        end("Microphone", "z"),
    ];
    assert_eq!(target("CABLE Input (VB-Audio)", list).as_deref(), Some("y"));
}

#[test]
fn another_cable_stands_in() {
    let list = vec![
        end("", "w"),
        windows::Endpoint { name: Some("CABLE Output 1".to_string()), id: None },
        end("CABLE Output 2", "y"),
    ];
    assert_eq!(target("CABLE Input 9", list).as_deref(), Some("y"));
    assert_eq!(target("CABLE Input", vec![end("Microphone", "z")]), None);
    // The pair itself without an id leaves no target.
    let list = vec![
        end("CABLE Output 2", "y"),
        windows::Endpoint { name: Some("CABLE Output 9".to_string()), id: None },
    ];
    assert_eq!(target("CABLE Input 9", list), None);
    assert!(windows::find_monitor_target("CABLE Input", &None).is_none());
}

#[test]
fn sessions_tell_who_records() {
    let me = 5;
    let own = Some(vec![windows::AudioSession { active: true, pid: Some(5) }]);
    assert!(windows::device_running_somewhere(&own, me));
    assert_eq!(windows::other_process_capturing(&own, me), MicUse::Idle);
    let other = Some(vec![
        windows::AudioSession { active: false, pid: Some(6) },
        windows::AudioSession { active: true, pid: None },
    ]);
    assert_eq!(windows::other_process_capturing(&other, me), MicUse::InUse);
    assert_eq!(windows::sessions_active(&None, true, me), None);
    assert!(!windows::device_running_somewhere(&None, me));
    assert_eq!(windows::other_process_capturing(&None, me), MicUse::Idle);
}

#[test]
fn other_systems_cannot_tell() {
    let t = unsupported::find_monitor_target("x").unwrap();
    assert!(!unsupported::device_running_somewhere(&t));
    assert_eq!(unsupported::other_process_capturing(&t), MicUse::Unsupported);
}
