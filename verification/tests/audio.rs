use micsync::audio::{
    device_names, find_input_device, find_output_device, is_virtual_mic_output,
    resolve_output_name, virtual_mic_installed, virtual_mic_label, LevelMeter, Pick, Playout,
    MAX_BUFFER_MS, WAVE_CAP,
};
use micsync::platform::Platform;

fn encode(level: f32) -> u32 {
    (level.clamp(0.0, 1.0) * 1000.0) as u32
}

fn decode(raw: u32) -> f32 {
    raw as f32 / 1000.0
}

#[test]
fn level_meter_wave_ring_and_seq() {
    let mut m = LevelMeter::new();
    assert_eq!(m.wave_snapshot(), (Vec::new(), 0));

    m.push(encode(0.5));
    m.push(encode(0.25));
    assert!((decode(m.level()) - 0.25).abs() < 1e-3);
    let (wave, seq) = m.wave_snapshot();
    assert_eq!(seq, 2);
    assert!((decode(wave[0]) - 0.5).abs() < 1e-3 && (decode(wave[1]) - 0.25).abs() < 1e-3);

    for _ in 0..WAVE_CAP {
        m.push(encode(1.0));
    }
    let (wave, seq) = m.wave_snapshot();
    assert_eq!(wave.len(), WAVE_CAP);
    assert_eq!(seq, 2 + WAVE_CAP as u64);
    assert!(wave.iter().all(|&v| decode(v) > 0.99));

    m.reset();
    assert_eq!(decode(m.level()), 0.0);
    let (wave, seq) = m.wave_snapshot();
    assert!(wave.is_empty());
    assert_eq!(seq, 2 + WAVE_CAP as u64);
}

#[test]
fn meter_keeps_the_newest_blocks_in_order() {
    let mut m = LevelMeter::new();
    for i in 0..(WAVE_CAP as u32 + 7) {
        m.push(i);
    }
    let (wave, _) = m.wave_snapshot();
    let expected: Vec<u32> = (7..(WAVE_CAP as u32 + 7)).collect();
    assert_eq!(wave, expected);
}

fn names(list: &[&str]) -> Vec<Option<String>> {
    list.iter().map(|n| Some(n.to_string())).collect()
}

#[test]
fn virtual_microphone_by_platform() {
    assert!(is_virtual_mic_output("BlackHole 2ch", Platform::MacOs));
    assert!(!is_virtual_mic_output("BlackHole 2ch", Platform::Windows));
    assert!(is_virtual_mic_output("CABLE Input (VB-Audio)", Platform::Windows));
    assert!(!is_virtual_mic_output("CABLE Input (VB-Audio)", Platform::Other));
    assert_eq!(virtual_mic_label(Platform::MacOs), "BlackHole");
    assert_eq!(virtual_mic_label(Platform::Windows), "CABLE Input(VB-Cable)");
}

#[test]
fn devices_are_picked_by_name_or_fall_back() {
    let list = names(&["Speakers", "BlackHole 2ch", "Headphones", "Headphones"]);
    assert_eq!(find_output_device(Some("Headphones"), &list, Platform::MacOs), Pick::Listed(2));
    assert_eq!(find_output_device(Some("Gone"), &list, Platform::MacOs), Pick::Default);
    assert_eq!(find_output_device(None, &list, Platform::MacOs), Pick::Listed(1));
    assert_eq!(find_output_device(None, &list, Platform::Windows), Pick::Default);
    assert_eq!(find_input_device(Some("Speakers"), &list), Pick::Listed(0));
    assert_eq!(find_input_device(None, &list), Pick::Default);
}

#[test]
fn output_name_is_resolved() {
    let list = names(&["Speakers", "BlackHole 2ch"]);
    let default = Some("Speakers".to_string());
    let none: Option<String> = None;
    assert_eq!(
        resolve_output_name(None, &list, &default, Platform::MacOs).as_deref(),
        Some("BlackHole 2ch")
    );
    assert_eq!(
        resolve_output_name(Some("x"), &list, &default, Platform::MacOs).as_deref(),
        Some("Speakers")
    );
    assert_eq!(resolve_output_name(None, &Vec::new(), &none, Platform::MacOs), None);
}

#[test]
fn nameless_devices_are_not_shown() {
    let list = vec![Some("A".to_string()), None, Some("B".to_string())];
    assert_eq!(device_names(&list), vec!["A".to_string(), "B".to_string()]);
    assert!(!virtual_mic_installed(&device_names(&list), Platform::MacOs));
    assert!(virtual_mic_installed(&vec!["BlackHole 16ch".to_string()], Platform::MacOs));
}

fn block(from: u32, count: u32) -> Vec<u32> {
    (from..from + count).collect()
}

#[test]
fn playing_waits_for_the_watermark() {
    let mut p = Playout::new();
    p.ready(48000);
    // Sixty milliseconds are 2880 samples.
    p.receive(&block(1, 2879));
    assert_eq!(p.fill(4), vec![0, 0, 0, 0]);
    p.receive(&[2880]);
    assert_eq!(p.buffer_ms(), 60);
    assert_eq!(p.fill(4), vec![1, 2, 3, 4]);
    assert_eq!(p.fill(3), vec![5, 6, 7]);
}

#[test]
fn running_dry_waits_again() {
    let mut p = Playout::new();
    p.ready(1000);
    p.receive(&block(1, 60));
    let out = p.fill(62);
    assert_eq!(out[59], 60);
    assert_eq!(&out[60..], &[0, 0]);
    // Not enough to start again.
    p.receive(&block(100, 59));
    assert_eq!(p.fill(2), vec![0, 0]);
    p.receive(&[200]);
    assert_eq!(p.fill(2), vec![100, 101]);
}

#[test]
fn the_oldest_samples_leave_a_full_buffer() {
    let mut p = Playout::new();
    p.ready(1000);
    p.receive(&block(1, 350));
    assert_eq!(p.buffer_ms() as u64, MAX_BUFFER_MS);
    assert_eq!(p.fill(1), vec![51]);
}

#[test]
fn nothing_is_buffered_without_an_output_device() {
    let mut p = Playout::new();
    p.receive(&[1, 2, 3]);
    assert_eq!(p.buffer_ms(), 0);
    assert_eq!(p.out_rate(), 0);
}
