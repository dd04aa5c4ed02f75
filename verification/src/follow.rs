//! Auto-follow: when an application on this machine starts to use the virtual
//! microphone, the remote one is claimed; when it stops, the remote one is
//! released a little later. A device that was taken over waits until its own use
//! has ended before it claims again, so that two devices do not tug.
use vstd::prelude::*;

use crate::audio::{is_virtual_mic_output, virtual_mic_label};
use crate::audio;
use crate::client::Preauth;
use crate::client;
use crate::micuse::MicUse;
use crate::platform::Platform;
use crate::text::opt_copy;
use crate::text;

verus! {

/// How long local use has to be over before the microphone is released.
pub const RELEASE_HANGOVER_MS: u64 = 2000;

/// The pause between two looks at the virtual microphone.
pub const POLL_MS: u64 = 300;

/// The pause after a claim that failed.
pub const CLAIM_RETRY_MS: u64 = 1500;

/// The pause while the virtual microphone is missing.
pub const MISSING_MS: u64 = 1000;

// ---------------------------------------------------------------------------
// Phases
// ---------------------------------------------------------------------------

/// What auto-follow is doing.
#[derive(Debug, Clone, Copy, PartialEq, Eq, Structural)]
pub enum Phase {
    /// Waiting for an application to use the virtual microphone.
    Armed,
    /// An application uses it, and the remote microphone is claimed.
    Active,
    /// Waiting for the virtual microphone to fall idle.
    Suppressed,
    /// The virtual microphone is not there.
    DeviceMissing,
    /// The system cannot tell whether it is used.
    Unsupported,
    /// Asking the server's owner for consent beforehand.
    Authorizing,
    /// The owner did not agree; auto-follow is over.
    AuthDenied,
}

impl Phase {
    /// The number of a phase.
    pub open spec fn number(self) -> u8 {
        match self {
            Phase::Armed => 0,
            Phase::Active => 1,
            Phase::Suppressed => 2,
            Phase::DeviceMissing => 3,
            Phase::Unsupported => 4,
            Phase::Authorizing => 5,
            Phase::AuthDenied => 6,
        }
    }

    /// The number of a phase.
    pub fn to_u8(self) -> (r: u8)
        ensures
            r == self.number(),
    {
        match self {
            Phase::Armed => 0,
            Phase::Active => 1,
            Phase::Suppressed => 2,
            Phase::DeviceMissing => 3,
            Phase::Unsupported => 4,
            Phase::Authorizing => 5,
            Phase::AuthDenied => 6,
        }
    }

    /// The phase with a number; any other number stands for armed.
    pub fn from_u8(v: u8) -> (r: Phase)
        ensures
            v <= 6 ==> r.number() == v,
            v > 6 ==> r == Phase::Armed,
    {
        match v {
            1 => Phase::Active,
            2 => Phase::Suppressed,
            3 => Phase::DeviceMissing,
            4 => Phase::Unsupported,
            5 => Phase::Authorizing,
            6 => Phase::AuthDenied,
            _ => Phase::Armed,
        }
    }

    /// The word for a phase.
    pub open spec fn word(self) -> Seq<char> {
        match self {
            Phase::Armed => "armed"@,
            Phase::Active => "active"@,
            Phase::Suppressed => "suppressed"@,
            Phase::DeviceMissing => "device_missing"@,
            Phase::Unsupported => "unsupported"@,
            Phase::Authorizing => "authorizing"@,
            Phase::AuthDenied => "auth_denied"@,
        }
    }

    /// The word for a phase.
    pub fn as_str(&self) -> (r: &'static str)
        ensures
            r@ == self.word(),
    {
        match self {
            Phase::Armed => "armed",
            Phase::Active => "active",
            Phase::Suppressed => "suppressed",
            Phase::DeviceMissing => "device_missing",
            Phase::Unsupported => "unsupported",
            Phase::Authorizing => "authorizing",
            Phase::AuthDenied => "auth_denied",
        }
    }
}

// ---------------------------------------------------------------------------
// When to claim and when to release
// ---------------------------------------------------------------------------

/// What to do about the remote microphone.
#[derive(Debug, Clone, Copy, PartialEq, Eq, Structural)]
pub enum FollowAction {
    Nothing,
    /// Claim the remote microphone.
    Claim,
    /// Release the remote microphone.
    Release,
}

/// Decides when to claim and when to release.
#[derive(Debug, Clone, Copy, PartialEq, Eq, Structural)]
pub struct FollowGate {
    pub phase: Phase,
    /// Since when local use has been over; nothing while it goes on.
    pub idle_since_ms: Option<u64>,
    pub hangover_ms: u64,
}

/// Local use has been over for the whole hangover.
pub open spec fn hangover_over(g: FollowGate, now_ms: u64) -> bool {
    match g.idle_since_ms {
        Some(t) => (if now_ms > t {
            now_ms - t
        } else {
            0
        }) >= g.hangover_ms,
        None => false,
    }
}

/// The state after one look, and what to do.
pub open spec fn gate_step(
    g: FollowGate,
    device_busy: bool,
    other_capturing: bool,
    now_ms: u64,
) -> (FollowGate, FollowAction) {
    match g.phase {
        Phase::Armed => if device_busy {
            (FollowGate { phase: Phase::Active, idle_since_ms: None, ..g }, FollowAction::Claim)
        } else {
            (g, FollowAction::Nothing)
        },
        Phase::Active => if other_capturing {
            (FollowGate { idle_since_ms: None, ..g }, FollowAction::Nothing)
        } else if g.idle_since_ms is None {
            (FollowGate { idle_since_ms: Some(now_ms), ..g }, FollowAction::Nothing)
        } else if hangover_over(g, now_ms) {
            (
                FollowGate { phase: Phase::Suppressed, idle_since_ms: None, ..g },
                FollowAction::Release,
            )
        } else {
            (g, FollowAction::Nothing)
        },
        Phase::Suppressed => if device_busy {
            (g, FollowAction::Nothing)
        } else {
            (FollowGate { phase: Phase::Armed, ..g }, FollowAction::Nothing)
        },
        _ => (g, FollowAction::Nothing),
    }
}

/// The state after the server ended the stream.
pub open spec fn gate_session_ended(g: FollowGate) -> FollowGate {
    if g.phase == Phase::Active {
        FollowGate { phase: Phase::Suppressed, idle_since_ms: None, ..g }
    } else {
        g
    }
}

/// The state after a claim failed.
pub open spec fn gate_claim_failed(g: FollowGate) -> FollowGate {
    if g.phase == Phase::Active {
        FollowGate { phase: Phase::Armed, idle_since_ms: None, ..g }
    } else {
        g
    }
}

impl FollowGate {
    /// Waiting for local use.
    pub fn new(hangover_ms: u64) -> (r: FollowGate)
        ensures
            r == (FollowGate { phase: Phase::Armed, idle_since_ms: None, hangover_ms }),
    {
        FollowGate { phase: Phase::Armed, idle_since_ms: None, hangover_ms }
    }

    /// Takes one look. While armed this app plays nothing, so a busy device
    /// means that an application has begun to use it. While active this app
    /// itself keeps the device busy, so what counts is whether another process
    /// still captures. After a release, and after having been taken over, the
    /// device has to fall idle first.
    pub fn step(&mut self, device_busy: bool, other_capturing: bool, now_ms: u64) -> (r:
        FollowAction)
        ensures
            (*final(self), r) == gate_step(*old(self), device_busy, other_capturing, now_ms),
    {
        match self.phase {
            Phase::Armed => {
                if device_busy {
                    self.phase = Phase::Active;
                    self.idle_since_ms = None;
                    FollowAction::Claim
                } else {
                    FollowAction::Nothing
                }
            },
            Phase::Active => {
                if other_capturing {
                    self.idle_since_ms = None;
                    return FollowAction::Nothing;
                }
                match self.idle_since_ms {
                    None => {
                        self.idle_since_ms = Some(now_ms);
                        FollowAction::Nothing
                    },
                    Some(t) => {
                        if now_ms.saturating_sub(t) >= self.hangover_ms {
                            self.phase = Phase::Suppressed;
                            self.idle_since_ms = None;
                            FollowAction::Release
                        } else {
                            FollowAction::Nothing
                        }
                    },
                }
            },
            Phase::Suppressed => {
                if !device_busy {
                    self.phase = Phase::Armed;
                }
                FollowAction::Nothing
            },
            _ => FollowAction::Nothing,
        }
    }

    /// The server ended the stream: another device took over, or it stopped.
    pub fn on_session_ended(&mut self)
        ensures
            *final(self) == gate_session_ended(*old(self)),
    {
        match self.phase {
            Phase::Active => {
                self.phase = Phase::Suppressed;
                self.idle_since_ms = None;
            },
            _ => {},
        }
    }

    /// A claim failed: it arms again, and the next look claims again if the device
    /// is still used.
    pub fn on_claim_failed(&mut self)
        ensures
            *final(self) == gate_claim_failed(*old(self)),
    {
        match self.phase {
            Phase::Active => {
                self.phase = Phase::Armed;
                self.idle_since_ms = None;
            },
            _ => {},
        }
    }
}

/// Anything that happens.
pub enum GateEvent {
    Look { device_busy: bool, other_capturing: bool, now_ms: u64 },
    SessionEnded,
    ClaimFailed,
}

/// The state after an event, and what to do.
pub open spec fn gate_after(g: FollowGate, e: GateEvent) -> (FollowGate, FollowAction) {
    match e {
        GateEvent::Look { device_busy, other_capturing, now_ms } => gate_step(
            g,
            device_busy,
            other_capturing,
            now_ms,
        ),
        GateEvent::SessionEnded => (gate_session_ended(g), FollowAction::Nothing),
        GateEvent::ClaimFailed => (gate_claim_failed(g), FollowAction::Nothing),
    }
}

/// The state after a run of events.
pub open spec fn gate_after_all(g: FollowGate, events: Seq<GateEvent>) -> FollowGate
    decreases events.len(),
{
    if events.len() == 0 {
        g
    } else {
        gate_after(gate_after_all(g, events.drop_last()), events.last()).0
    }
}

/// What to do at one event of a run.
pub open spec fn gate_action(g: FollowGate, events: Seq<GateEvent>, i: int) -> FollowAction {
    gate_after(gate_after_all(g, events.take(i)), events[i]).1
}

/// The device was busy in every look of a run.
pub open spec fn always_busy(events: Seq<GateEvent>) -> bool {
    forall|i: int|
        0 <= i < events.len() ==> ((#[trigger] events[i]) matches GateEvent::Look {
            device_busy,
            ..
        } ==> device_busy)
}

/// No tug-of-war: whoever is suppressed, because another device took over or
/// because it has just released, claims nothing for as long as the device stays
/// busy.
pub proof fn law_suppressed_gate_waits_for_idle(g: FollowGate, events: Seq<GateEvent>)
    requires
        g.phase == Phase::Suppressed,
        always_busy(events),
    ensures
        gate_after_all(g, events).phase == Phase::Suppressed,
        forall|i: int|
            0 <= i < events.len() ==> #[trigger] gate_action(g, events, i) == FollowAction::Nothing,
    decreases events.len(),
{
    if events.len() > 0 {
        let before = events.drop_last();
        assert(always_busy(before)) by {
            assert forall|i: int| 0 <= i < before.len() implies ((#[trigger] before[i]) matches
                GateEvent::Look { device_busy, .. } ==> device_busy) by {
                assert(before[i] == events[i]);
            }
        }
        law_suppressed_gate_waits_for_idle(g, before);
        assert(events.last() == events[events.len() - 1]);
        assert forall|i: int| 0 <= i < events.len() implies #[trigger] gate_action(g, events, i)
            == FollowAction::Nothing by {
            if i < before.len() {
                assert(events.take(i) =~= before.take(i));
                assert(gate_action(g, before, i) == FollowAction::Nothing);
            } else {
                assert(events.take(i) =~= before);
            }
        }
    }
}

/// A device that was taken over does not take the microphone back: from the end
/// of its stream on it claims nothing while its own use goes on.
pub proof fn law_taken_over_device_stays_away(g: FollowGate, events: Seq<GateEvent>)
    requires
        g.phase == Phase::Active,
        always_busy(events),
    ensures
        gate_after_all(gate_session_ended(g), events).phase == Phase::Suppressed,
        forall|i: int|
            0 <= i < events.len() ==> #[trigger] gate_action(gate_session_ended(g), events, i)
                == FollowAction::Nothing,
{
    law_suppressed_gate_waits_for_idle(gate_session_ended(g), events);
}

/// In the last so many events nobody captured; the first of them was a look at a
/// time.
pub open spec fn quiet_since(events: Seq<GateEvent>, start: int, since_ms: u64) -> bool {
    &&& 0 <= start < events.len()
    &&& events[start] matches GateEvent::Look { now_ms, .. } && now_ms == since_ms
    &&& forall|j: int|
        start <= j < events.len() ==> ((#[trigger] events[j]) matches GateEvent::Look {
            other_capturing,
            ..
        } ==> !other_capturing)
}

proof fn lemma_quiet_since(g: FollowGate, events: Seq<GateEvent>)
    requires
        g.idle_since_ms is None,
    ensures
        gate_after_all(g, events).hangover_ms == g.hangover_ms,
        gate_after_all(g, events).idle_since_ms matches Some(t) ==> exists|start: int|
            #[trigger] quiet_since(events, start, t),
    decreases events.len(),
{
    if events.len() > 0 {
        let before = events.drop_last();
        lemma_quiet_since(g, before);
        let was = gate_after_all(g, before);
        let now = gate_after_all(g, events);
        let last = events.last();
        assert(last == events[events.len() - 1]);
        if now.idle_since_ms is Some {
            let t = now.idle_since_ms->0;
            if was.idle_since_ms == Some(t) && !(last matches GateEvent::Look {
                other_capturing: true,
                ..
            }) {
                let start = choose|start: int| #[trigger] quiet_since(before, start, t);
                assert(events[start] == before[start]);
                assert forall|j: int| start <= j < events.len() implies ((#[trigger] events[j])
                    matches GateEvent::Look { other_capturing, .. } ==> !other_capturing) by {
                    if j < before.len() {
                        assert(events[j] == before[j]);
                    }
                }
                assert(quiet_since(events, start, t));
            } else if was.idle_since_ms == Some(t) {
                // A capture was seen in a phase in which it does not count.
                assert(was.phase == Phase::Active ==> now.idle_since_ms is None);
                lemma_idle_only_while_active(g, before);
            } else {
                assert(quiet_since(events, events.len() - 1, t));
            }
        }
    }
}

proof fn lemma_idle_only_while_active(g: FollowGate, events: Seq<GateEvent>)
    requires
        g.idle_since_ms is None,
    ensures
        gate_after_all(g, events).idle_since_ms is Some ==> gate_after_all(g, events).phase
            == Phase::Active,
    decreases events.len(),
{
    if events.len() > 0 {
        lemma_idle_only_while_active(g, events.drop_last());
    }
}

/// The microphone is released only after local use has been over for the whole
/// hangover: in every look since the start of that time nobody captured.
pub proof fn law_release_waits_for_the_hangover(
    hangover_ms: u64,
    events: Seq<GateEvent>,
    device_busy: bool,
    now_ms: u64,
)
    requires
        hangover_ms > 0,
    ensures
        ({
            let fresh = FollowGate { phase: Phase::Armed, idle_since_ms: None, hangover_ms };
            forall|other_capturing: bool|
                (#[trigger] gate_step(
                    gate_after_all(fresh, events),
                    device_busy,
                    other_capturing,
                    now_ms,
                )).1 == FollowAction::Release ==> !other_capturing && exists|
                    start: int,
                    since_ms: u64,
                |
                    #[trigger] quiet_since(events, start, since_ms) && now_ms - since_ms
                        >= hangover_ms
        }),
{
    let fresh = FollowGate { phase: Phase::Armed, idle_since_ms: None, hangover_ms };
    lemma_quiet_since(fresh, events);
}

/// While one claim is in force no other is made, and nothing is released that
/// was not claimed.
pub proof fn law_claims_and_releases_alternate(
    g: FollowGate,
    device_busy: bool,
    other_capturing: bool,
    now_ms: u64,
)
    ensures
        ({
            let (after, action) = gate_step(g, device_busy, other_capturing, now_ms);
            &&& action == FollowAction::Claim ==> g.phase != Phase::Active && after.phase
                == Phase::Active && device_busy
            &&& action == FollowAction::Release ==> g.phase == Phase::Active && after.phase
                != Phase::Active
            &&& action == FollowAction::Nothing ==> (g.phase == Phase::Active <==> after.phase
                == Phase::Active)
        }),
{
}

// ---------------------------------------------------------------------------
// The follower
// ---------------------------------------------------------------------------

/// The stream that was claimed, as the follower sees it.
pub enum Claimed {
    /// None is claimed.
    Nothing,
    /// It goes on.
    Live,
    /// It is over, with what there is to tell the user.
    Over(Option<String>),
}

pub enum ClaimedView {
    Nothing,
    Live,
    Over(Option<Seq<char>>),
}

impl View for Claimed {
    type V = ClaimedView;

    open spec fn view(&self) -> ClaimedView {
        match *self {
            Claimed::Nothing => ClaimedView::Nothing,
            Claimed::Live => ClaimedView::Live,
            Claimed::Over(e) => ClaimedView::Over(text::opt_view(e)),
        }
    }
}

/// What to do next.
#[derive(Debug, Clone, Copy, PartialEq, Eq, Structural)]
pub enum FollowTodo {
    /// Ask for consent beforehand, after a pause of so many milliseconds.
    AskAfter(u64),
    /// Look at the virtual microphone, after a pause of so many milliseconds.
    LookAfter(u64),
    /// Claim the remote microphone.
    Claim,
    /// Give the claimed stream back, then look again after a pause.
    ReleaseThenLookAfter(u64),
    /// Leave it.
    End,
}

/// The state of auto-follow.
#[verifier::ext_equal]
pub struct FollowView {
    pub addr: Seq<char>,
    pub output_device: Seq<char>,
    pub stopped: bool,
    pub phase: Phase,
    pub local_in_use: bool,
    pub error: Option<Seq<char>>,
    pub gate: FollowGate,
}

impl FollowView {
    /// After the answer to asking beforehand: a denial is final, an old server
    /// is asked when the microphone is needed.
    pub open spec fn asked(self, answer: Result<client::PreauthView, Seq<char>>) -> (
        FollowView,
        FollowTodo,
    ) {
        match answer {
            Ok(client::PreauthView::Denied(m)) => (
                FollowView { phase: Phase::AuthDenied, error: Some(m), ..self },
                FollowTodo::End,
            ),
            Ok(_) => (
                FollowView { phase: Phase::Armed, error: None, ..self },
                FollowTodo::LookAfter(0),
            ),
            Err(e) => (
                FollowView { error: Some("服务端不可达,自动重试中: "@ + e), ..self },
                FollowTodo::AskAfter(CLAIM_RETRY_MS),
            ),
        }
    }

    /// After a look: a stream that is over counts before the look does.
    pub open spec fn noted(self, claimed: ClaimedView) -> FollowView {
        match claimed {
            ClaimedView::Over(e) => FollowView {
                error: e,
                gate: gate_session_ended(self.gate),
                ..self
            },
            _ => self,
        }
    }

    /// What is shown of local use: while active whether somebody captures, else
    /// whether the device is busy.
    pub open spec fn shown_use(self, device_busy: bool, other_capturing: bool) -> bool {
        if self.gate.phase == Phase::Active {
            other_capturing
        } else {
            device_busy
        }
    }

    /// After a look, and what to do then.
    pub open spec fn looked(
        self,
        device_busy: bool,
        used: MicUse,
        claimed: ClaimedView,
        now_ms: u64,
    ) -> (FollowView, FollowTodo) {
        if used == MicUse::Unsupported {
            (
                FollowView {
                    phase: Phase::Unsupported,
                    error: Some(
                        "自动跟随需要 macOS 14 及以上(Process Objects API),请改用手动模式"@,
                    ),
                    ..self
                },
                FollowTodo::End,
            )
        } else {
            let capturing = used == MicUse::InUse;
            let seen = FollowView {
                local_in_use: self.shown_use(device_busy, capturing),
                ..self.noted(claimed)
            };
            let (gate, action) = gate_step(seen.gate, device_busy, capturing, now_ms);
            match action {
                FollowAction::Claim => (FollowView { gate, ..seen }, FollowTodo::Claim),
                FollowAction::Release => (
                    FollowView { gate, phase: gate.phase, error: None, ..seen },
                    FollowTodo::ReleaseThenLookAfter(POLL_MS),
                ),
                FollowAction::Nothing => (
                    FollowView { gate, phase: gate.phase, ..seen },
                    FollowTodo::LookAfter(POLL_MS),
                ),
            }
        }
    }

    /// The virtual microphone is not there.
    pub open spec fn missing(self) -> FollowView {
        FollowView { phase: Phase::DeviceMissing, ..self }
    }

    /// After an attempt to claim, and what to do then.
    pub open spec fn claim_tried(self, failure: Option<Seq<char>>) -> (FollowView, FollowTodo) {
        match failure {
            None => (
                FollowView { phase: self.gate.phase, error: None, ..self },
                FollowTodo::LookAfter(POLL_MS),
            ),
            Some(e) => {
                let gate = gate_claim_failed(self.gate);
                (
                    FollowView {
                        gate,
                        phase: gate.phase,
                        error: Some("认领远端麦克风失败: "@ + e),
                        ..self
                    },
                    FollowTodo::LookAfter((CLAIM_RETRY_MS + POLL_MS) as u64),
                )
            },
        }
    }
}

/// Auto-follow in use.
pub struct FollowHandle {
    /// The server's address.
    addr: String,
    /// The virtual microphone's inlet, which is played to and watched.
    output_device: String,
    stop: bool,
    phase: Phase,
    local_in_use: bool,
    error: Option<String>,
    gate: FollowGate,
}

impl View for FollowHandle {
    type V = FollowView;

    closed spec fn view(&self) -> FollowView {
        FollowView {
            addr: self.addr@,
            output_device: self.output_device@,
            stopped: self.stop,
            phase: self.phase,
            local_in_use: self.local_in_use,
            error: text::opt_view(self.error),
            gate: self.gate,
        }
    }
}

/// Auto-follow as it starts: it first asks for consent.
pub open spec fn starting(addr: Seq<char>, output_device: Seq<char>) -> FollowView {
    FollowView {
        addr,
        output_device,
        stopped: false,
        phase: Phase::Authorizing,
        local_in_use: false,
        error: None,
        gate: FollowGate {
            phase: Phase::Armed,
            idle_since_ms: None,
            hangover_ms: RELEASE_HANGOVER_MS,
        },
    }
}

/// Starts auto-follow. The output device has to be the virtual microphone's
/// inlet: its use is what is watched.
pub fn start(addr: String, output_device: String, platform: Platform) -> (r: Result<
    FollowHandle,
    String,
>)
    ensures
        match r {
            Ok(h) => audio::virtual_mic(output_device@, platform) && h@ == starting(
                addr@,
                output_device@,
            ),
            Err(e) => !audio::virtual_mic(output_device@, platform) && e@
                == "自动跟随需要选择 "@ + audio::mic_label(platform)
                + " 输出设备(检测的就是它的使用状态)"@,
        },
{
    if !is_virtual_mic_output(output_device.as_str(), platform) {
        return Err(
            "自动跟随需要选择 ".to_string().concat(virtual_mic_label(platform)).concat(
                " 输出设备(检测的就是它的使用状态)",
            ),
        );
    }
    Ok(
        FollowHandle {
            addr,
            output_device,
            stop: false,
            phase: Phase::Authorizing,
            local_in_use: false,
            error: None,
            gate: FollowGate::new(RELEASE_HANGOVER_MS),
        },
    )
}

impl FollowHandle {
    /// The server's address.
    pub fn addr(&self) -> (r: String)
        ensures
            r@ == self@.addr,
    {
        self.addr.clone()
    }

    /// The device that is played to.
    pub fn output_device(&self) -> (r: String)
        ensures
            r@ == self@.output_device,
    {
        self.output_device.clone()
    }

    pub fn phase(&self) -> (r: Phase)
        ensures
            r == self@.phase,
    {
        self.phase
    }

    /// Whether an application on this machine uses the virtual microphone.
    pub fn local_in_use(&self) -> (r: bool)
        ensures
            r == self@.local_in_use,
    {
        self.local_in_use
    }

    /// What there is to tell the user.
    pub fn take_error(&self) -> (r: Option<String>)
        ensures
            text::opt_view(r) == self@.error,
    {
        opt_copy(&self.error)
    }

    /// Whether it was stopped.
    pub fn is_stopped(&self) -> (r: bool)
        ensures
            r == self@.stopped,
    {
        self.stop
    }

    /// The user stops it.
    pub fn stop(&mut self)
        ensures
            final(self)@ == (FollowView { stopped: true, ..old(self)@ }),
    {
        self.stop = true;
    }

    /// The server's owner was asked beforehand.
    pub fn on_preauth(&mut self, answer: Result<Preauth, String>) -> (r: FollowTodo)
        ensures
            (final(self)@, r) == old(self)@.asked(client::preauth_result(answer)),
    {
        match answer {
            Ok(Preauth::Denied(m)) => {
                self.phase = Phase::AuthDenied;
                self.error = Some(m);
                FollowTodo::End
            },
            Ok(_) => {
                self.phase = Phase::Armed;
                self.error = None;
                FollowTodo::LookAfter(0)
            },
            Err(e) => {
                self.error = Some("服务端不可达,自动重试中: ".to_string().concat(e.as_str()));
                FollowTodo::AskAfter(CLAIM_RETRY_MS)
            },
        }
    }

    /// The virtual microphone is not there; it may still be plugged in.
    pub fn on_device_missing(&mut self) -> (r: FollowTodo)
        ensures
            final(self)@ == old(self)@.missing(),
            r == FollowTodo::LookAfter(MISSING_MS),
    {
        self.phase = Phase::DeviceMissing;
        FollowTodo::LookAfter(MISSING_MS)
    }

    /// The virtual microphone was looked at.
    pub fn on_look(&mut self, device_busy: bool, used: MicUse, claimed: Claimed, now_ms: u64) -> (r:
        FollowTodo)
        ensures
            (final(self)@, r) == old(self)@.looked(device_busy, used, claimed@, now_ms),
    {
        let other_capturing = match used {
            MicUse::InUse => true,
            MicUse::Idle => false,
            MicUse::Unsupported => {
                self.phase = Phase::Unsupported;
                self.error = Some(
                    "自动跟随需要 macOS 14 及以上(Process Objects API),请改用手动模式".to_string(),
                );
                return FollowTodo::End;
            },
        };
        self.local_in_use = match self.gate.phase {
            Phase::Active => other_capturing,
            _ => device_busy,
        };
        match claimed {
            Claimed::Over(e) => {
                self.error = e;
                self.gate.on_session_ended();
            },
            _ => {},
        }
        match self.gate.step(device_busy, other_capturing, now_ms) {
            FollowAction::Claim => FollowTodo::Claim,
            FollowAction::Release => {
                self.phase = self.gate.phase;
                self.error = None;
                FollowTodo::ReleaseThenLookAfter(POLL_MS)
            },
            FollowAction::Nothing => {
                self.phase = self.gate.phase;
                FollowTodo::LookAfter(POLL_MS)
            },
        }
    }

    /// The remote microphone was claimed, or the attempt failed.
    pub fn on_claim(&mut self, failure: Option<String>) -> (r: FollowTodo)
        ensures
            (final(self)@, r) == old(self)@.claim_tried(text::opt_view(failure)),
    {
        match failure {
            None => {
                self.error = None;
                self.phase = self.gate.phase;
                FollowTodo::LookAfter(POLL_MS)
            },
            Some(e) => {
                self.error = Some("认领远端麦克风失败: ".to_string().concat(e.as_str()));
                self.gate.on_claim_failed();
                self.phase = self.gate.phase;
                FollowTodo::LookAfter(CLAIM_RETRY_MS + POLL_MS)
            },
        }
    }
}

// ---------------------------------------------------------------------------
// What holds of every run
// ---------------------------------------------------------------------------

/// Anything that happens to auto-follow.
pub enum FollowEvent {
    Asked(Result<client::PreauthView, Seq<char>>),
    DeviceMissing,
    Looked { device_busy: bool, used: MicUse, claimed: ClaimedView, now_ms: u64 },
    ClaimTried(Option<Seq<char>>),
    Stopped,
}

/// The state after an event, and what to do next; stopping leaves that open.
pub open spec fn follow_after(v: FollowView, e: FollowEvent) -> (FollowView, Option<FollowTodo>) {
    match e {
        FollowEvent::Asked(answer) => {
            let (after, todo) = v.asked(answer);
            (after, Some(todo))
        },
        FollowEvent::DeviceMissing => (v.missing(), Some(FollowTodo::LookAfter(MISSING_MS))),
        FollowEvent::Looked { device_busy, used, claimed, now_ms } => {
            let (after, todo) = v.looked(device_busy, used, claimed, now_ms);
            (after, Some(todo))
        },
        FollowEvent::ClaimTried(failure) => {
            let (after, todo) = v.claim_tried(failure);
            (after, Some(todo))
        },
        FollowEvent::Stopped => (FollowView { stopped: true, ..v }, None),
    }
}

/// The state after a run of events.
pub open spec fn follow_after_all(v: FollowView, events: Seq<FollowEvent>) -> FollowView
    decreases events.len(),
{
    if events.len() == 0 {
        v
    } else {
        follow_after(follow_after_all(v, events.drop_last()), events.last()).0
    }
}

/// What to do next after one event of a run.
pub open spec fn follow_todo(v: FollowView, events: Seq<FollowEvent>, i: int) -> Option<FollowTodo> {
    follow_after(follow_after_all(v, events.take(i)), events[i]).1
}

/// The device was busy in every look of a run.
pub open spec fn seen_busy(events: Seq<FollowEvent>) -> bool {
    forall|i: int|
        0 <= i < events.len() ==> ((#[trigger] events[i]) matches FollowEvent::Looked {
            device_busy,
            ..
        } ==> device_busy)
}

/// Auto-follow never tugs the stream back: once suppressed, because another
/// device took over or because it has just released, it stays so and claims
/// nothing for as long as the virtual microphone stays busy, whatever else
/// happens.
pub proof fn law_suppressed_follower_waits_for_idle(v: FollowView, events: Seq<FollowEvent>)
    requires
        v.gate.phase == Phase::Suppressed,
        seen_busy(events),
    ensures
        follow_after_all(v, events).gate.phase == Phase::Suppressed,
        forall|i: int|
            0 <= i < events.len() ==> #[trigger] follow_todo(v, events, i) != Some(
                FollowTodo::Claim,
            ),
    decreases events.len(),
{
    if events.len() > 0 {
        let before = events.drop_last();
        assert(seen_busy(before)) by {
            assert forall|i: int| 0 <= i < before.len() implies ((#[trigger] before[i]) matches
                FollowEvent::Looked { device_busy, .. } ==> device_busy) by {
                assert(before[i] == events[i]);
            }
        }
        law_suppressed_follower_waits_for_idle(v, before);
        assert(events.last() == events[events.len() - 1]);
        assert forall|i: int| 0 <= i < events.len() implies #[trigger] follow_todo(v, events, i)
            != Some(FollowTodo::Claim) by {
            if i < before.len() {
                assert(events.take(i) =~= before.take(i));
                assert(follow_todo(v, before, i) != Some(FollowTodo::Claim));
            } else {
                assert(events.take(i) =~= before);
            }
        }
    }
}

/// Auto-follow whose stream was taken over does not take the microphone back:
/// the look that finds the stream over claims nothing, and neither does anything
/// that happens afterwards while local use goes on.
pub proof fn law_taken_over_follower_stays_away(
    v: FollowView,
    used: MicUse,
    told: Option<Seq<char>>,
    now_ms: u64,
    events: Seq<FollowEvent>,
)
    requires
        v.gate.phase == Phase::Active,
        used != MicUse::Unsupported,
        seen_busy(events),
    ensures
        ({
            let (after, todo) = v.looked(true, used, ClaimedView::Over(told), now_ms);
            &&& todo == FollowTodo::LookAfter(POLL_MS)
            &&& after.phase == Phase::Suppressed
            &&& after.error == told
            &&& follow_after_all(after, events).gate.phase == Phase::Suppressed
            &&& forall|i: int|
                0 <= i < events.len() ==> #[trigger] follow_todo(after, events, i) != Some(
                    FollowTodo::Claim,
                )
        }),
{
    let (after, todo) = v.looked(true, used, ClaimedView::Over(told), now_ms);
    law_suppressed_follower_waits_for_idle(after, events);
}

/// What an event of auto-follow is to its gate.
pub open spec fn gate_events_of(e: FollowEvent) -> Seq<GateEvent> {
    match e {
        FollowEvent::Looked { device_busy, used, claimed, now_ms } => {
            let look = GateEvent::Look {
                device_busy,
                other_capturing: used == MicUse::InUse,
                now_ms,
            };
            if used == MicUse::Unsupported {
                Seq::empty()
            } else if claimed is Over {
                seq![GateEvent::SessionEnded, look]
            } else {
                seq![look]
            }
        },
        FollowEvent::ClaimTried(Some(_)) => seq![GateEvent::ClaimFailed],
        _ => Seq::empty(),
    }
}

/// What a run of auto-follow is to its gate.
pub open spec fn gate_events(events: Seq<FollowEvent>) -> Seq<GateEvent>
    decreases events.len(),
{
    if events.len() == 0 {
        Seq::empty()
    } else {
        gate_events(events.drop_last()) + gate_events_of(events.last())
    }
}

/// Auto-follow goes by its gate alone: over every run its gate is where the looks,
/// the ends of streams and the failed claims of that run bring it.
pub proof fn law_follower_goes_by_its_gate(v: FollowView, events: Seq<FollowEvent>)
    ensures
        follow_after_all(v, events).gate == gate_after_all(v.gate, gate_events(events)),
    decreases events.len(),
{
    if events.len() > 0 {
        let before = events.drop_last();
        law_follower_goes_by_its_gate(v, before);
        let sofar = gate_events(before);
        let more = gate_events_of(events.last());
        let all = gate_events(events);
        if more.len() == 0 {
            assert(all =~= sofar);
        } else if more.len() == 1 {
            assert(all.drop_last() =~= sofar);
            assert(all.last() == more[0]);
        } else {
            let mid = all.drop_last();
            assert(mid.drop_last() =~= sofar);
            assert(mid.last() == more[0]);
            assert(all.last() == more[1]);
            assert(gate_after_all(v.gate, mid) == gate_session_ended(
                gate_after_all(v.gate, sofar),
            ));
        }
    }
}

/// From its start on, auto-follow gives the microphone back only after local use
/// has been over for the whole hangover: in every look since the start of that
/// time nobody captured.
pub proof fn law_follower_releases_after_the_hangover(
    addr: Seq<char>,
    output_device: Seq<char>,
    events: Seq<FollowEvent>,
    device_busy: bool,
    used: MicUse,
    claimed: ClaimedView,
    now_ms: u64,
)
    ensures
        ({
            let v = follow_after_all(starting(addr, output_device), events);
            v.looked(device_busy, used, claimed, now_ms).1 is ReleaseThenLookAfter ==> used
                == MicUse::Idle && exists|start: int, since_ms: u64|
                #[trigger] quiet_since(gate_events(events), start, since_ms) && now_ms - since_ms
                    >= RELEASE_HANGOVER_MS
        }),
{
    let from = starting(addr, output_device);
    let run = gate_events(events);
    law_follower_goes_by_its_gate(from, events);
    law_release_waits_for_the_hangover(RELEASE_HANGOVER_MS, run, device_busy, now_ms);
    let gate = gate_after_all(from.gate, run);
    let capturing = used == MicUse::InUse;
    assert(gate_step(gate, device_busy, capturing, now_ms).1 == FollowAction::Release
        ==> !capturing && exists|start: int, since_ms: u64|
        #[trigger] quiet_since(run, start, since_ms) && now_ms - since_ms >= RELEASE_HANGOVER_MS);
}

// ---------------------------------------------------------------------------
// What auto-follow is for
// ---------------------------------------------------------------------------

/// An armed gate claims as soon as the device is busy, and not before.
pub proof fn law_busy_device_is_claimed(g: FollowGate, other_capturing: bool, now_ms: u64)
    requires
        g.phase == Phase::Armed,
    ensures
        ({
            let (after, action) = gate_step(g, true, other_capturing, now_ms);
            &&& action == FollowAction::Claim
            &&& after.phase == Phase::Active
            &&& after.idle_since_ms is None
            &&& after.hangover_ms == g.hangover_ms
        }),
        gate_step(g, false, other_capturing, now_ms) == (g, FollowAction::Nothing),
{
}

/// While active, what counts is whether somebody captures, and not whether the
/// device is busy. The first look that finds nobody begins the quiet time; a
/// capture ends it.
pub proof fn law_quiet_time_begins_and_ends(g: FollowGate, device_busy: bool, now_ms: u64)
    requires
        g.phase == Phase::Active,
    ensures
        ({
            let (quiet, action) = gate_step(g, device_busy, false, now_ms);
            g.idle_since_ms is None ==> action == FollowAction::Nothing && quiet.phase
                == Phase::Active && quiet.idle_since_ms == Some(now_ms) && quiet.hangover_ms
                == g.hangover_ms
        }),
        ({
            let (used, action) = gate_step(g, device_busy, true, now_ms);
            action == FollowAction::Nothing && used.phase == Phase::Active && used.idle_since_ms
                is None && used.hangover_ms == g.hangover_ms
        }),
{
}

/// The microphone is given back when nobody has captured for the hangover,
/// whether or not the device is busy; until then nothing changes.
pub proof fn law_quiet_hangover_releases(g: FollowGate, device_busy: bool, since: u64, now_ms: u64)
    requires
        g.phase == Phase::Active,
        g.idle_since_ms == Some(since),
        since <= now_ms,
    ensures
        now_ms - since >= g.hangover_ms ==> ({
            let (after, action) = gate_step(g, device_busy, false, now_ms);
            &&& action == FollowAction::Release
            &&& after.phase == Phase::Suppressed
            &&& after.idle_since_ms is None
            &&& after.hangover_ms == g.hangover_ms
        }),
        now_ms - since < g.hangover_ms ==> gate_step(g, device_busy, false, now_ms) == (
            g,
            FollowAction::Nothing,
        ),
{
}

/// Looks that find nobody capturing.
pub open spec fn quiet_looks(events: Seq<GateEvent>) -> bool {
    forall|i: int|
        0 <= i < events.len() ==> ((#[trigger] events[i]) matches GateEvent::Look {
            other_capturing: false,
            ..
        })
}

/// The time of a look.
pub open spec fn look_time(e: GateEvent) -> u64 {
    match e {
        GateEvent::Look { now_ms, .. } => now_ms,
        _ => 0,
    }
}

/// Release does come: over any run of looks that find nobody capturing, an active
/// gate whose user has just stopped has let go by the look that comes the hangover
/// after the first one, if the clock does not run backwards.
pub proof fn law_release_comes(g: FollowGate, events: Seq<GateEvent>, i: int)
    requires
        g.phase == Phase::Active,
        g.idle_since_ms is None,
        quiet_looks(events),
        0 < i < events.len(),
        forall|j: int|
            0 <= j < i ==> look_time(events[0]) <= look_time(#[trigger] events[j]),
        look_time(events[i]) >= look_time(events[0]),
        look_time(events[i]) - look_time(events[0]) >= g.hangover_ms,
    ensures
        exists|k: int|
            0 < k <= i && #[trigger] gate_action(g, events, k) == FollowAction::Release,
{
    let k = lemma_release_at(g, events, i);
    assert(gate_action(g, events, k) == FollowAction::Release);
}

/// The first look of such a run that is the hangover behind the first releases.
proof fn lemma_release_at(g: FollowGate, events: Seq<GateEvent>, i: int) -> (k: int)
    requires
        g.phase == Phase::Active,
        g.idle_since_ms is None,
        quiet_looks(events),
        0 < i < events.len(),
        forall|j: int|
            0 <= j < i ==> look_time(events[0]) <= look_time(#[trigger] events[j]),
        look_time(events[i]) >= look_time(events[0]),
        look_time(events[i]) - look_time(events[0]) >= g.hangover_ms,
    ensures
        0 < k <= i,
        gate_action(g, events, k) == FollowAction::Release,
    decreases i,
{
    if exists|j: int|
        0 < j < i && look_time(#[trigger] events[j]) - look_time(events[0]) >= g.hangover_ms {
        let j = choose|j: int|
            0 < j < i && look_time(#[trigger] events[j]) - look_time(events[0]) >= g.hangover_ms;
        lemma_release_at(g, events, j)
    } else {
        lemma_waits_quietly(g, events, i);
        assert(events[i] matches GateEvent::Look { other_capturing: false, .. });
        i
    }
}

proof fn lemma_waits_quietly(g: FollowGate, events: Seq<GateEvent>, i: int)
    requires
        g.phase == Phase::Active,
        g.idle_since_ms is None,
        quiet_looks(events),
        0 < i <= events.len(),
        forall|j: int|
            0 <= j < i ==> look_time(events[0]) <= look_time(#[trigger] events[j]),
        forall|j: int|
            0 < j < i ==> look_time(#[trigger] events[j]) - look_time(events[0]) < g.hangover_ms,
    ensures
        gate_after_all(g, events.take(i)).phase == Phase::Active,
        gate_after_all(g, events.take(i)).idle_since_ms == Some(look_time(events[0])),
        gate_after_all(g, events.take(i)).hangover_ms == g.hangover_ms,
    decreases i,
{
    let t = events.take(i);
    assert(t.drop_last() =~= events.take(i - 1));
    assert(t.last() == events[i - 1]);
    assert(events[i - 1] matches GateEvent::Look { other_capturing: false, .. });
    if i == 1 {
        assert(gate_after_all(g, events.take(0)) == g);
    } else {
        lemma_waits_quietly(g, events, i - 1);
        assert(look_time(events[i - 1]) - look_time(events[0]) < g.hangover_ms);
    }
}

/// After a release or a takeover the first look that finds the device idle arms
/// again, and the next busy look claims again.
pub proof fn law_idle_device_arms_again(
    g: FollowGate,
    other_capturing: bool,
    later: bool,
    now_ms: u64,
    later_ms: u64,
)
    requires
        g.phase == Phase::Suppressed,
    ensures
        ({
            let (armed, action) = gate_step(g, false, other_capturing, now_ms);
            &&& action == FollowAction::Nothing
            &&& armed.phase == Phase::Armed
            &&& armed.hangover_ms == g.hangover_ms
            &&& gate_step(armed, true, later, later_ms).1 == FollowAction::Claim
        }),
        gate_step(g, true, other_capturing, now_ms) == (g, FollowAction::Nothing),
{
}

/// The end of a stream suppresses an active gate, a claim that failed arms it
/// again, so that the next busy look tries again; a gate that is not active takes
/// no notice of either.
pub proof fn law_gate_takes_note_of_ends_and_failures(g: FollowGate, later: bool, now_ms: u64)
    ensures
        g.phase == Phase::Active ==> gate_session_ended(g).phase == Phase::Suppressed
            && gate_session_ended(g).idle_since_ms is None && gate_session_ended(g).hangover_ms
            == g.hangover_ms,
        g.phase == Phase::Active ==> gate_claim_failed(g).phase == Phase::Armed && gate_claim_failed(
            g,
        ).idle_since_ms is None && gate_claim_failed(g).hangover_ms == g.hangover_ms,
        g.phase == Phase::Active ==> gate_step(gate_claim_failed(g), true, later, now_ms).1
            == FollowAction::Claim,
        g.phase != Phase::Active ==> gate_session_ended(g) == g && gate_claim_failed(g) == g,
{
}

/// Auto-follow starts by asking for consent, with a gate that is armed and waits
/// two seconds before it releases.
pub proof fn law_following_starts_armed(addr: Seq<char>, output_device: Seq<char>)
    ensures
        ({
            let v = starting(addr, output_device);
            &&& v.addr == addr
            &&& v.output_device == output_device
            &&& !v.stopped
            &&& v.phase == Phase::Authorizing
            &&& !v.local_in_use
            &&& v.error is None
            &&& v.gate.phase == Phase::Armed
            &&& v.gate.idle_since_ms is None
            &&& v.gate.hangover_ms == 2000
        }),
{
}

/// What comes of asking beforehand: a denial ends auto-follow with the owner's
/// words, consent and an old server let it look at once, and a failure of the
/// network is told and tried again. None of them claims or releases anything.
pub proof fn law_consent_comes_first(v: FollowView, words: Seq<char>)
    ensures
        ({
            let (denied, end) = v.asked(Ok(client::PreauthView::Denied(words)));
            &&& end == FollowTodo::End
            &&& denied == (FollowView { phase: Phase::AuthDenied, error: Some(words), ..v })
        }),
        forall|answer: client::PreauthView| !(answer is Denied) ==> ({
            let (granted, next) = #[trigger] v.asked(Ok(answer));
            &&& next == FollowTodo::LookAfter(0)
            &&& granted == (FollowView { phase: Phase::Armed, error: None, ..v })
        }),
        ({
            let (offline, next) = v.asked(Err(words));
            &&& next == FollowTodo::AskAfter(1500)
            &&& offline == (FollowView { error: offline.error, ..v })
            &&& offline.error is Some && offline.error->0.len() >= words.len()
                && offline.error->0.skip(offline.error->0.len() - words.len()) == words
        }),
{
    let told = v.asked(Err(words)).0.error->0;
    assert(told.skip(told.len() - words.len()) =~= words);
}

/// What a look leads to where the system can tell: an armed follower claims as soon
/// as the device is busy; an active one gives the stream back when nobody has
/// captured for the hangover; otherwise it looks again after 300 milliseconds.
pub proof fn law_look_leads_to(
    v: FollowView,
    device_busy: bool,
    used: MicUse,
    claimed: ClaimedView,
    now_ms: u64,
)
    requires
        used != MicUse::Unsupported,
    ensures
        ({
            let (after, next) = v.looked(device_busy, used, claimed, now_ms);
            &&& next == FollowTodo::Claim <==> v.gate.phase == Phase::Armed && device_busy
            &&& next == FollowTodo::ReleaseThenLookAfter(300) <==> {
                &&& v.gate.phase == Phase::Active
                &&& !(claimed is Over)
                &&& used == MicUse::Idle
                &&& v.gate.idle_since_ms is Some
                &&& v.gate.idle_since_ms->0 + v.gate.hangover_ms <= now_ms || v.gate.hangover_ms
                    == 0
            }
            &&& next == FollowTodo::Claim || next == FollowTodo::ReleaseThenLookAfter(300) || next
                == FollowTodo::LookAfter(300)
            &&& after.addr == v.addr && after.output_device == v.output_device && after.stopped
                == v.stopped
            &&& next != FollowTodo::Claim ==> after.phase == after.gate.phase
            &&& next == FollowTodo::Claim ==> after.phase == v.phase && after.gate.phase
                == Phase::Active
            &&& after.local_in_use == (if v.gate.phase == Phase::Active {
                used == MicUse::InUse
            } else {
                device_busy
            })
            &&& after.gate == gate_step(
                if claimed is Over {
                    gate_session_ended(v.gate)
                } else {
                    v.gate
                },
                device_busy,
                used == MicUse::InUse,
                now_ms,
            ).0
            &&& claimed matches ClaimedView::Over(told) ==> after.error == told
            &&& !(claimed is Over) && next != FollowTodo::ReleaseThenLookAfter(300) ==> after.error
                == v.error
            &&& next == FollowTodo::ReleaseThenLookAfter(300) ==> after.error is None
        }),
{
}

/// Where the system cannot tell, auto-follow ends and says so.
pub proof fn law_following_needs_a_system_that_can_tell(
    v: FollowView,
    device_busy: bool,
    claimed: ClaimedView,
    now_ms: u64,
)
    ensures
        ({
            let (after, next) = v.looked(device_busy, MicUse::Unsupported, claimed, now_ms);
            &&& next == FollowTodo::End
            &&& after.error is Some
            &&& after == (FollowView { phase: Phase::Unsupported, error: after.error, ..v })
        }),
{
}

/// After a claim the new phase is shown and the next look comes soon. A claim that
/// failed is told, arms again and is not repeated before a pause.
pub proof fn law_claim_is_shown_or_told(v: FollowView, words: Seq<char>)
    ensures
        ({
            let (after, next) = v.claim_tried(None);
            &&& next == FollowTodo::LookAfter(300)
            &&& after == (FollowView { phase: v.gate.phase, error: None, ..v })
        }),
        ({
            let (after, next) = v.claim_tried(Some(words));
            &&& next == FollowTodo::LookAfter(1800)
            &&& after.error is Some && after.error->0.len() >= words.len()
                && after.error->0.skip(after.error->0.len() - words.len()) == words
            &&& v.gate.phase == Phase::Active ==> after.gate.phase == Phase::Armed
            &&& v.gate.phase != Phase::Active ==> after.gate == v.gate
            &&& after == (FollowView {
                gate: gate_claim_failed(v.gate),
                phase: gate_claim_failed(v.gate).phase,
                error: after.error,
                ..v
            })
        }),
        v.missing() == (FollowView { phase: Phase::DeviceMissing, ..v }),
{
    let told = v.claim_tried(Some(words)).0.error->0;
    assert(told.skip(told.len() - words.len()) =~= words);
}

} // verus!
