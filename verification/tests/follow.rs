use micsync::client::Preauth;
use micsync::follow::{
    start, Claimed, FollowAction, FollowGate, FollowTodo, Phase, CLAIM_RETRY_MS, POLL_MS,
};
use micsync::micuse::MicUse;
use micsync::platform::Platform;

#[test]
fn gate_claims_on_local_use_and_releases_after_hangover() {
    let mut g = FollowGate::new(2000);
    assert_eq!(g.step(false, false, 0), FollowAction::Nothing);
    assert_eq!(g.step(true, true, 100), FollowAction::Claim);
    assert_eq!(g.phase, Phase::Active);
    assert_eq!(g.step(true, true, 500), FollowAction::Nothing);
    assert_eq!(g.step(true, false, 1000), FollowAction::Nothing);
    assert_eq!(g.step(true, false, 2500), FollowAction::Nothing);
    assert_eq!(g.step(true, true, 2800), FollowAction::Nothing);
    assert_eq!(g.step(true, false, 3000), FollowAction::Nothing);
    assert_eq!(g.step(true, false, 5100), FollowAction::Release);
    assert_eq!(g.phase, Phase::Suppressed);
    assert_eq!(g.step(true, false, 5200), FollowAction::Nothing);
    assert_eq!(g.phase, Phase::Suppressed);
    assert_eq!(g.step(false, false, 5500), FollowAction::Nothing);
    assert_eq!(g.phase, Phase::Armed);
    assert_eq!(g.step(true, true, 6000), FollowAction::Claim);
}

#[test]
fn gate_suppressed_after_preemption_until_local_idle() {
    let mut g = FollowGate::new(2000);
    assert_eq!(g.step(true, true, 0), FollowAction::Claim);
    g.on_session_ended();
    assert_eq!(g.phase, Phase::Suppressed);
    assert_eq!(g.step(true, true, 500), FollowAction::Nothing);
    assert_eq!(g.step(true, true, 5000), FollowAction::Nothing);
    assert_eq!(g.step(false, false, 6000), FollowAction::Nothing);
    assert_eq!(g.phase, Phase::Armed);
    assert_eq!(g.step(true, true, 7000), FollowAction::Claim);
}

#[test]
fn gate_retries_after_claim_failure() {
    let mut g = FollowGate::new(2000);
    assert_eq!(g.step(true, true, 0), FollowAction::Claim);
    g.on_claim_failed();
    assert_eq!(g.phase, Phase::Armed);
    assert_eq!(g.step(true, true, 300), FollowAction::Claim);
}

#[test]
fn a_clock_that_goes_back_releases_nothing() {
    let mut g = FollowGate::new(2000);
    g.step(true, true, 0);
    g.step(true, false, 5000);
    assert_eq!(g.step(true, false, 100), FollowAction::Nothing);
}

#[test]
fn phases_by_number_and_word() {
    let words = [
        "armed", "active", "suppressed", "device_missing", "unsupported", "authorizing",
        "auth_denied",
    ];
    for (i, w) in words.iter().enumerate() {
        let p = Phase::from_u8(i as u8);
        assert_eq!(p.to_u8(), i as u8);
        assert_eq!(p.as_str(), *w);
    }
    assert_eq!(Phase::from_u8(200), Phase::Armed);
}

#[test]
fn only_the_virtual_microphone_can_be_followed() {
    let e = start("h".to_string(), "Speakers".to_string(), Platform::MacOs).err();
    assert_eq!(
        e.as_deref(),
        Some("自动跟随需要选择 BlackHole 输出设备(检测的就是它的使用状态)")
    );
    let e = start("h".to_string(), "BlackHole 2ch".to_string(), Platform::Windows).err();
    assert_eq!(
        e.as_deref(),
        Some("自动跟随需要选择 CABLE Input(VB-Cable) 输出设备(检测的就是它的使用状态)")
    );
    let h = start("h".to_string(), "BlackHole 2ch".to_string(), Platform::MacOs).ok().unwrap();
    assert_eq!(h.phase(), Phase::Authorizing);
    assert_eq!(h.output_device(), "BlackHole 2ch");
}

#[test]
fn a_denied_authorization_ends_it() {
    let mut h = start("h".to_string(), "BlackHole".to_string(), Platform::MacOs).ok().unwrap();
    assert_eq!(h.on_preauth(Err("down".to_string())), FollowTodo::AskAfter(CLAIM_RETRY_MS));
    assert_eq!(h.phase(), Phase::Authorizing);
    assert_eq!(h.take_error().as_deref(), Some("服务端不可达,自动重试中: down"));
    assert_eq!(h.on_preauth(Ok(Preauth::Denied("no".to_string()))), FollowTodo::End);
    assert_eq!(h.phase(), Phase::AuthDenied);
    assert_eq!(h.take_error().as_deref(), Some("no"));
}

#[test]
fn a_whole_round_of_following() {
    let mut h = start("h".to_string(), "BlackHole".to_string(), Platform::MacOs).ok().unwrap();
    assert_eq!(h.on_preauth(Ok(Preauth::Granted)), FollowTodo::LookAfter(0));
    assert_eq!(h.phase(), Phase::Armed);
    assert_eq!(h.on_device_missing(), FollowTodo::LookAfter(1000));
    assert_eq!(h.phase(), Phase::DeviceMissing);
    assert_eq!(h.on_look(true, MicUse::InUse, Claimed::Nothing, 0), FollowTodo::Claim);
    assert!(h.local_in_use());
    assert_eq!(
        h.on_claim(Some("x".to_string())),
        FollowTodo::LookAfter(CLAIM_RETRY_MS + POLL_MS)
    );
    assert_eq!(h.phase(), Phase::Armed);
    assert_eq!(h.take_error().as_deref(), Some("认领远端麦克风失败: x"));
    assert_eq!(h.on_look(true, MicUse::InUse, Claimed::Nothing, 300), FollowTodo::Claim);
    assert_eq!(h.on_claim(None), FollowTodo::LookAfter(POLL_MS));
    assert_eq!(h.phase(), Phase::Active);
    // Taken over: the local use goes on, and nothing is claimed.
    let over = Claimed::Over(Some("taken".to_string()));
    assert_eq!(h.on_look(true, MicUse::InUse, over, 600), FollowTodo::LookAfter(POLL_MS));
    assert_eq!(h.phase(), Phase::Suppressed);
    assert_eq!(h.take_error().as_deref(), Some("taken"));
    assert_eq!(
        h.on_look(true, MicUse::InUse, Claimed::Nothing, 900),
        FollowTodo::LookAfter(POLL_MS)
    );
    h.on_look(false, MicUse::Idle, Claimed::Nothing, 1200);
    assert_eq!(h.on_look(true, MicUse::InUse, Claimed::Nothing, 1500), FollowTodo::Claim);
    h.on_claim(None);
    h.on_look(true, MicUse::Idle, Claimed::Live, 2000);
    assert_eq!(
        h.on_look(true, MicUse::Idle, Claimed::Live, 4000),
        FollowTodo::ReleaseThenLookAfter(POLL_MS)
    );
    assert_eq!(h.phase(), Phase::Suppressed);
    assert_eq!(
        h.on_look(true, MicUse::Unsupported, Claimed::Nothing, 5000),
        FollowTodo::End
    );
    assert_eq!(h.phase(), Phase::Unsupported);
    h.stop();
    assert!(h.is_stopped());
}

#[test]
fn a_follower_that_was_taken_over_does_not_tug() {
    let mut h = start("h".to_string(), "BlackHole".to_string(), Platform::MacOs).ok().unwrap();
    h.on_preauth(Ok(Preauth::Granted));
    assert_eq!(h.on_look(true, MicUse::InUse, Claimed::Nothing, 0), FollowTodo::Claim);
    h.on_claim(None);
    let over = Claimed::Over(None);
    assert_eq!(h.on_look(true, MicUse::InUse, over, 300), FollowTodo::LookAfter(POLL_MS));
    for i in 2..50 {
        // Neither a missing device nor anything else arms it while the device is busy.
        if i % 7 == 0 {
            h.on_device_missing();
        }
        if i % 11 == 0 {
            h.on_claim(Some("late".to_string()));
        }
        let used = if i % 2 == 0 { MicUse::InUse } else { MicUse::Idle };
        assert_eq!(
            h.on_look(true, used, Claimed::Over(None), i * 300),
            FollowTodo::LookAfter(POLL_MS)
        );
        assert_eq!(h.phase(), Phase::Suppressed);
    }
}

#[test]
fn a_follower_releases_after_two_quiet_seconds() {
    let mut h = start("h".to_string(), "BlackHole".to_string(), Platform::MacOs).ok().unwrap();
    h.on_preauth(Ok(Preauth::Granted));
    h.on_look(true, MicUse::InUse, Claimed::Nothing, 0);
    h.on_claim(None);
    let wait = FollowTodo::LookAfter(POLL_MS);
    assert_eq!(h.on_look(true, MicUse::Idle, Claimed::Live, 1000), wait);
    // A capture in between starts the time anew.
    assert_eq!(h.on_look(true, MicUse::InUse, Claimed::Live, 2900), wait);
    assert_eq!(h.on_look(true, MicUse::Idle, Claimed::Live, 3100), wait);
    assert_eq!(h.on_look(true, MicUse::Idle, Claimed::Live, 5099), wait);
    assert_eq!(
        h.on_look(true, MicUse::Idle, Claimed::Live, 5100),
        FollowTodo::ReleaseThenLookAfter(POLL_MS)
    );
}
