//! Audio around the sound card: which device to use, the level meter, and the
//! buffer between the network and the speaker.
//!
//! Levels are thousandths of full scale. Samples in the buffer are the bits of
//! 32 bit floats; silence is zero.
use std::collections::VecDeque;
use vstd::prelude::*;

use crate::platform::Platform;
use crate::text;
use crate::text::{opt_copy, same_text, text_contains};

verus! {

// ---------------------------------------------------------------------------
// Devices
// ---------------------------------------------------------------------------

/// What the virtual loopback device is called on a platform.
pub open spec fn mic_label(platform: Platform) -> Seq<char> {
    if platform == Platform::Windows {
        "CABLE Input(VB-Cable)"@
    } else {
        "BlackHole"@
    }
}

/// What the virtual loopback device is called: BlackHole, and VB-Cable on
/// Windows, where the client plays into its render end.
pub fn virtual_mic_label(platform: Platform) -> (r: &'static str)
    ensures
        r@ == mic_label(platform),
{
    match platform {
        Platform::Windows => "CABLE Input(VB-Cable)",
        _ => "BlackHole",
    }
}

/// An output device with this name is the virtual microphone's inlet.
pub open spec fn virtual_mic(name: Seq<char>, platform: Platform) -> bool {
    if platform == Platform::Windows {
        text::contains(name, "CABLE"@)
    } else {
        text::contains(name, "BlackHole"@)
    }
}

/// Whether an output device is the virtual loopback device, by its name.
pub fn is_virtual_mic_output(name: &str, platform: Platform) -> (r: bool)
    ensures
        r == virtual_mic(name@, platform),
{
    match platform {
        Platform::Windows => text_contains(name, "CABLE"),
        _ => text_contains(name, "BlackHole"),
    }
}

/// Which device of a list to use.
#[derive(Debug, Clone, Copy, PartialEq, Eq, Structural)]
pub enum Pick {
    /// The device at a place of the list.
    Listed(usize),
    /// The system's default device.
    Default,
}

/// The names of listed devices; a device may have none.
pub open spec fn name_views(names: Seq<Option<String>>) -> Seq<Option<Seq<char>>> {
    Seq::new(names.len(), |i: int| text::opt_view(names[i]))
}

/// The first device that passes a test on its name.
pub open spec fn first_device(
    names: Seq<Option<Seq<char>>>,
    test: spec_fn(Seq<char>) -> bool,
    pick: Pick,
) -> bool {
    match pick {
        Pick::Listed(i) => {
            &&& i < names.len()
            &&& names[i as int] is Some
            &&& test(names[i as int]->0)
            &&& forall|j: int|
                0 <= j < i ==> !((#[trigger] names[j]) is Some && test(names[j]->0))
        },
        Pick::Default => forall|j: int|
            0 <= j < names.len() ==> !((#[trigger] names[j]) is Some && test(names[j]->0)),
    }
}

fn find_named(names: &Vec<Option<String>>, wanted: &str) -> (r: Pick)
    ensures
        first_device(name_views(names@), |n: Seq<char>| n == wanted@, r),
{
    let ghost views = name_views(names@);
    let ghost test = |n: Seq<char>| n == wanted@;
    let count: usize = names.len();
    let mut i: usize = 0;
    while i < count
        invariant
            count == names@.len(),
            i <= count,
            views == name_views(names@),
            test == (|n: Seq<char>| n == wanted@),
            forall|j: int| 0 <= j < i ==> !((#[trigger] views[j]) is Some && test(views[j]->0)),
        decreases count - i,
    {
        assert(views[i as int] == text::opt_view(names@[i as int]));
        match &names[i] {
            Some(n) => {
                if same_text(n.as_str(), wanted) {
                    return Pick::Listed(i);
                }
            },
            None => {},
        }
        i = i + 1;
    }
    Pick::Default
}

fn find_virtual_mic(names: &Vec<Option<String>>, platform: Platform) -> (r: Pick)
    ensures
        first_device(name_views(names@), |n: Seq<char>| virtual_mic(n, platform), r),
{
    let ghost views = name_views(names@);
    let ghost test = |n: Seq<char>| virtual_mic(n, platform);
    let count: usize = names.len();
    let mut i: usize = 0;
    while i < count
        invariant
            count == names@.len(),
            i <= count,
            views == name_views(names@),
            test == (|n: Seq<char>| virtual_mic(n, platform)),
            forall|j: int| 0 <= j < i ==> !((#[trigger] views[j]) is Some && test(views[j]->0)),
        decreases count - i,
    {
        assert(views[i as int] == text::opt_view(names@[i as int]));
        match &names[i] {
            Some(n) => {
                if is_virtual_mic_output(n.as_str(), platform) {
                    return Pick::Listed(i);
                }
            },
            None => {},
        }
        i = i + 1;
    }
    Pick::Default
}

/// The input device to capture from: the first of the wanted name, or the
/// default where none is wanted or none has it.
pub fn find_input_device(wanted: Option<&str>, names: &Vec<Option<String>>) -> (r: Pick)
    ensures
        match wanted {
            Some(w) => first_device(name_views(names@), |n: Seq<char>| n == w@, r),
            None => r == Pick::Default,
        },
{
    match wanted {
        Some(w) => find_named(names, w),
        None => Pick::Default,
    }
}

/// The output device to play to: the first of the wanted name; where none is
/// wanted the first virtual microphone; else the default.
pub open spec fn output_pick(
    wanted: Option<Seq<char>>,
    names: Seq<Option<Seq<char>>>,
    platform: Platform,
    pick: Pick,
) -> bool {
    match wanted {
        Some(w) => first_device(names, |n: Seq<char>| n == w, pick),
        None => first_device(names, |n: Seq<char>| virtual_mic(n, platform), pick),
    }
}

/// A borrowed text that may be missing, by its characters.
pub open spec fn wanted_view(wanted: Option<&str>) -> Option<Seq<char>> {
    match wanted {
        Some(w) => Some(w@),
        None => None,
    }
}

/// Picks the output device to play to.
pub fn find_output_device(
    wanted: Option<&str>,
    names: &Vec<Option<String>>,
    platform: Platform,
) -> (r: Pick)
    ensures
        output_pick(wanted_view(wanted), name_views(names@), platform, r),
{
    match wanted {
        Some(w) => find_named(names, w),
        None => find_virtual_mic(names, platform),
    }
}

/// The name of the output device that would be played to. `default` is the name
/// of the default device, where there is one with a name.
pub fn resolve_output_name(
    wanted: Option<&str>,
    names: &Vec<Option<String>>,
    default: &Option<String>,
    platform: Platform,
) -> (r: Option<String>)
    ensures
        exists|pick: Pick|
            #[trigger] output_pick(wanted_view(wanted), name_views(names@), platform, pick)
                && text::opt_view(r) == match pick {
                Pick::Listed(i) => name_views(names@)[i as int],
                Pick::Default => text::opt_view(*default),
            },
{
    let pick = find_output_device(wanted, names, platform);
    match pick {
        Pick::Listed(i) => opt_copy(&names[i]),
        Pick::Default => opt_copy(default),
    }
}

/// At most one device is picked: the choice is settled by the names.
pub proof fn law_one_device_is_picked(
    wanted: Option<Seq<char>>,
    names: Seq<Option<Seq<char>>>,
    platform: Platform,
    a: Pick,
    b: Pick,
)
    requires
        output_pick(wanted, names, platform, a),
        output_pick(wanted, names, platform, b),
    ensures
        a == b,
{
    match (a, b) {
        (Pick::Listed(i), Pick::Listed(j)) => {
            if i < j {
                assert(names[i as int] is Some);
            } else if j < i {
                assert(names[j as int] is Some);
            }
        },
        (Pick::Listed(i), Pick::Default) => {
            assert(names[i as int] is Some);
        },
        (Pick::Default, Pick::Listed(i)) => {
            assert(names[i as int] is Some);
        },
        (Pick::Default, Pick::Default) => {},
    }
}

/// The names that are there, in order.
pub open spec fn present(names: Seq<Option<Seq<char>>>) -> Seq<Seq<char>>
    decreases names.len(),
{
    if names.len() == 0 {
        Seq::empty()
    } else {
        match names.last() {
            Some(n) => present(names.drop_last()).push(n),
            None => present(names.drop_last()),
        }
    }
}

/// The names of a list of devices, for display; devices without one are left out.
pub fn device_names(names: &Vec<Option<String>>) -> (r: Vec<String>)
    ensures
        text::text_views(r@) == present(name_views(names@)),
{
    let ghost views = name_views(names@);
    let mut out: Vec<String> = Vec::new();
    let count: usize = names.len();
    let mut i: usize = 0;
    assert(text::text_views(out@) =~= present(views.take(0)));
    while i < count
        invariant
            count == names@.len(),
            i <= count,
            views == name_views(names@),
            text::text_views(out@) == present(views.take(i as int)),
        decreases count - i,
    {
        let ghost before = text::text_views(out@);
        assert(views.take(i + 1).drop_last() =~= views.take(i as int));
        assert(views.take(i + 1).last() == text::opt_view(names@[i as int]));
        match &names[i] {
            Some(n) => {
                out.push(n.clone());
                assert(text::text_views(out@) =~= before.push(n@));
            },
            None => {},
        }
        i = i + 1;
    }
    assert(views.take(count as int) =~= views);
    out
}

/// Whether the virtual loopback device is among the output devices.
pub fn virtual_mic_installed(outputs: &Vec<String>, platform: Platform) -> (r: bool)
    ensures
        r == exists|i: int|
            0 <= i < outputs@.len() && virtual_mic((#[trigger] outputs@[i])@, platform),
{
    let count: usize = outputs.len();
    let mut i: usize = 0;
    while i < count
        invariant
            count == outputs@.len(),
            i <= count,
            forall|j: int| 0 <= j < i ==> !virtual_mic((#[trigger] outputs@[j])@, platform),
        decreases count - i,
    {
        if is_virtual_mic_output(outputs[i].as_str(), platform) {
            assert(virtual_mic(outputs@[i as int]@, platform));
            return true;
        }
        i = i + 1;
    }
    false
}

// ---------------------------------------------------------------------------
// Level meter
// ---------------------------------------------------------------------------

/// How many blocks of audio the meter remembers: about 1.5 seconds.
pub const WAVE_CAP: usize = 150;

/// What a meter shows.
#[verifier::ext_equal]
pub struct MeterView {
    pub level: u32,
    pub wave: Seq<u32>,
    pub seq: u64,
}

/// The last so many of a sequence.
pub open spec fn newest<T>(s: Seq<T>, count: int) -> Seq<T> {
    if s.len() > count {
        s.skip(s.len() - count)
    } else {
        s
    }
}

impl MeterView {
    /// The meter after one more block: the oldest block leaves a full history,
    /// and the count of blocks goes on.
    pub open spec fn pushed(self, peak: u32) -> MeterView {
        MeterView {
            level: peak,
            wave: newest(self.wave.push(peak), WAVE_CAP as int),
            seq: if self.seq == u64::MAX {
                0
            } else {
                (self.seq + 1) as u64
            },
        }
    }
}

/// The level of the current block of audio and the peaks of the last blocks.
pub struct LevelMeter {
    level: u32,
    wave: VecDeque<u32>,
    seq: u64,
}

impl View for LevelMeter {
    type V = MeterView;

    closed spec fn view(&self) -> MeterView {
        MeterView { level: self.level, wave: self.wave@, seq: self.seq }
    }
}

impl LevelMeter {
    #[verifier::type_invariant]
    spec fn bounded(self) -> bool {
        self.wave@.len() <= WAVE_CAP
    }

    /// A meter that has seen nothing.
    pub fn new() -> (r: LevelMeter)
        ensures
            r@ == (MeterView { level: 0, wave: Seq::empty(), seq: 0 }),
    {
        LevelMeter { level: 0, wave: VecDeque::with_capacity(WAVE_CAP), seq: 0 }
    }

    /// Takes the peak of one block of audio.
    pub fn push(&mut self, peak: u32)
        ensures
            final(self)@ == old(self)@.pushed(peak),
    {
        proof {
            use_type_invariant(&*self);
        }
        let ghost before = self.wave@;
        let mut wave: VecDeque<u32> = VecDeque::new();
        std::mem::swap(&mut wave, &mut self.wave);
        if wave.len() >= WAVE_CAP {
            wave.pop_front();
        }
        wave.push_back(peak);
        assert(wave@ =~= newest(before.push(peak), WAVE_CAP as int));
        self.level = peak;
        self.wave = wave;
        self.seq = self.seq.wrapping_add(1);
    }

    /// The level of the last block.
    pub fn level(&self) -> (r: u32)
        ensures
            r == self@.level,
    {
        self.level
    }

    /// Forgets level and history at the end of a session. The count of blocks
    /// stays, so that nobody takes old blocks for new ones.
    pub fn reset(&mut self)
        ensures
            final(self)@ == (MeterView { level: 0, wave: Seq::empty(), seq: old(self)@.seq }),
    {
        proof {
            use_type_invariant(&*self);
        }
        self.level = 0;
        self.wave = VecDeque::new();
    }

    /// The history, oldest block first, and the count of all blocks so far. The
    /// history is never longer than its cap.
    pub fn wave_snapshot(&self) -> (r: (Vec<u32>, u64))
        ensures
            r.0@ == self@.wave,
            r.1 == self@.seq,
            r.0@.len() <= WAVE_CAP,
    {
        proof {
            use_type_invariant(self);
        }
        let mut out: Vec<u32> = Vec::new();
        let count: usize = self.wave.len();
        let mut i: usize = 0;
        while i < count
            invariant
                count == self.wave@.len(),
                i <= count,
                out@ == self.wave@.take(i as int),
            decreases count - i,
        {
            out.push(self.wave[i]);
            i = i + 1;
        }
        (out, self.seq)
    }
}

/// The meter after a run of blocks.
pub open spec fn metered(m: MeterView, peaks: Seq<u32>) -> MeterView
    decreases peaks.len(),
{
    if peaks.len() == 0 {
        m
    } else {
        metered(m, peaks.drop_last()).pushed(peaks.last())
    }
}

/// The history always holds the newest blocks, in order, as many as fit.
pub proof fn law_meter_keeps_the_newest(m: MeterView, peaks: Seq<u32>)
    requires
        m.wave.len() <= WAVE_CAP,
    ensures
        metered(m, peaks).wave == newest(m.wave + peaks, WAVE_CAP as int),
        peaks.len() > 0 ==> metered(m, peaks).level == peaks.last(),
    decreases peaks.len(),
{
    if peaks.len() == 0 {
        assert(m.wave + peaks =~= m.wave);
    } else {
        let shorter = peaks.drop_last();
        law_meter_keeps_the_newest(m, shorter);
        assert(m.wave + peaks =~= (m.wave + shorter).push(peaks.last()));
        assert(newest(
            newest(m.wave + shorter, WAVE_CAP as int).push(peaks.last()),
            WAVE_CAP as int,
        ) =~= newest((m.wave + shorter).push(peaks.last()), WAVE_CAP as int));
    }
}

// ---------------------------------------------------------------------------
// Playout
// ---------------------------------------------------------------------------

/// The most that is buffered, in milliseconds: older samples go, so that the
/// delay cannot grow.
pub const MAX_BUFFER_MS: u64 = 300;

/// What has to be buffered before playing starts, in milliseconds.
pub const PREBUFFER_MS: u64 = 60;

/// The number of samples in a time at a sample rate.
pub open spec fn samples_in(rate: u32, ms: u64) -> int {
    (rate as int * ms as int) / 1000
}

fn sample_count(rate: u32, ms: u64) -> (r: usize)
    requires
        ms <= 1000,
    ensures
        r == samples_in(rate, ms),
{
    assert(rate as int * ms as int <= u32::MAX as int * 1000) by (nonlinear_arith)
        requires
            0 <= rate <= u32::MAX,
            0 <= ms <= 1000,
    ;
    assert(rate as int * ms as int >= 0) by (nonlinear_arith)
        requires
            0 <= rate,
            0 <= ms,
    ;
    (rate as u64 * ms / 1000) as usize
}

/// The state of playing out: what waits to be played, whether playing is under
/// way, and the rate of the output device; zero while there is none.
#[verifier::ext_equal]
pub struct PlayoutView {
    pub queue: Seq<u32>,
    pub started: bool,
    pub rate: u32,
}

impl PlayoutView {
    /// The longest queue.
    pub open spec fn cap(self) -> int {
        samples_in(self.rate, MAX_BUFFER_MS)
    }

    /// New samples queue up; what is too much leaves at the old end.
    pub open spec fn received(self, samples: Seq<u32>) -> PlayoutView {
        PlayoutView { queue: newest(self.queue + samples, self.cap()), ..self }
    }

    /// Playing is under way in the next block: it was, or enough has queued up.
    pub open spec fn plays(self) -> bool {
        self.started || self.queue.len() >= samples_in(self.rate, PREBUFFER_MS)
    }

    /// The block that is played next: samples from the queue while playing is
    /// under way, then silence.
    pub open spec fn block(self, frames: nat) -> Seq<u32> {
        Seq::new(
            frames,
            |i: int|
                if self.plays() && i < self.queue.len() {
                    self.queue[i]
                } else {
                    0u32
                },
        )
    }

    /// The state behind that block: a block that wanted more than there was
    /// ends playing until enough has queued up again.
    pub open spec fn after_block(self, frames: nat) -> PlayoutView {
        if !self.plays() {
            self
        } else if frames <= self.queue.len() {
            PlayoutView { queue: self.queue.skip(frames as int), started: true, ..self }
        } else {
            PlayoutView { queue: Seq::empty(), started: false, ..self }
        }
    }
}

/// The buffer between the network and the output device.
pub struct Playout {
    queue: VecDeque<u32>,
    started: bool,
    rate: u32,
}

impl View for Playout {
    type V = PlayoutView;

    closed spec fn view(&self) -> PlayoutView {
        PlayoutView { queue: self.queue@, started: self.started, rate: self.rate }
    }
}

impl Playout {
    #[verifier::type_invariant]
    spec fn bounded(self) -> bool {
        self.queue@.len() <= samples_in(self.rate, MAX_BUFFER_MS)
    }

    /// Nothing buffered, and no output device yet.
    pub fn new() -> (r: Playout)
        ensures
            r@ == (PlayoutView { queue: Seq::empty(), started: false, rate: 0 }),
    {
        Playout { queue: VecDeque::new(), started: false, rate: 0 }
    }

    /// An output device is there and plays at a rate.
    pub fn ready(&mut self, rate: u32)
        ensures
            final(self)@ == (PlayoutView { rate, ..old(self)@ }).received(Seq::empty()),
    {
        let ghost before = self.queue@;
        let mut queue: VecDeque<u32> = VecDeque::new();
        std::mem::swap(&mut queue, &mut self.queue);
        let cap = sample_count(rate, MAX_BUFFER_MS);
        trim_oldest(&mut queue, cap);
        assert(before + Seq::<u32>::empty() =~= before);
        self.rate = rate;
        self.queue = queue;
    }

    /// The rate of the output device; zero while there is none.
    pub fn out_rate(&self) -> (r: u32)
        ensures
            r == self@.rate,
    {
        self.rate
    }

    /// Queues samples from the network.
    pub fn receive(&mut self, samples: &[u32])
        ensures
            final(self)@ == old(self)@.received(samples@),
    {
        let ghost before = self.queue@;
        let mut queue: VecDeque<u32> = VecDeque::new();
        std::mem::swap(&mut queue, &mut self.queue);
        let count: usize = samples.len();
        let mut i: usize = 0;
        assert(before + samples@.take(0) =~= before);
        while i < count
            invariant
                count == samples@.len(),
                i <= count,
                queue@ == before + samples@.take(i as int),
            decreases count - i,
        {
            queue.push_back(samples[i]);
            i = i + 1;
            assert(queue@ =~= before + samples@.take(i as int));
        }
        assert(samples@.take(count as int) =~= samples@);
        let cap = sample_count(self.rate, MAX_BUFFER_MS);
        trim_oldest(&mut queue, cap);
        self.queue = queue;
    }

    /// Plays one block. Before anything plays, enough has to queue up; a block
    /// that runs dry is filled with silence and playing waits again.
    pub fn fill(&mut self, frames: usize) -> (r: Vec<u32>)
        ensures
            r@ == old(self)@.block(frames as nat),
            final(self)@ == old(self)@.after_block(frames as nat),
    {
        proof {
            use_type_invariant(&*self);
        }
        let ghost v = self@;
        let mut queue: VecDeque<u32> = VecDeque::new();
        std::mem::swap(&mut queue, &mut self.queue);
        let rate = self.rate;
        let mut started = self.started;
        if !started && queue.len() >= sample_count(rate, PREBUFFER_MS) {
            started = true;
        }
        let mut out: Vec<u32> = Vec::new();
        let mut i: usize = 0;
        while i < frames
            invariant
                i <= frames,
                out@ == v.block(i as nat),
                v.plays() ==> started == (i <= v.queue.len()),
                !v.plays() ==> !started && queue@ == v.queue,
                v.plays() ==> queue@ == (if i <= v.queue.len() {
                    v.queue.skip(i as int)
                } else {
                    Seq::<u32>::empty()
                }),
            decreases frames - i,
        {
            let mut sample: u32 = 0;
            if started {
                match queue.pop_front() {
                    Some(s) => {
                        sample = s;
                    },
                    None => {
                        started = false;
                    },
                }
            }
            out.push(sample);
            i = i + 1;
            assert(out@ =~= v.block(i as nat));
            proof {
                if v.plays() && i <= v.queue.len() {
                    assert(queue@ =~= v.queue.skip(i as int));
                } else if v.plays() {
                    assert(queue@ =~= Seq::<u32>::empty());
                }
            }
        }
        self.started = started;
        self.queue = queue;
        out
    }

    /// How much is buffered, in milliseconds; never more than the cap.
    pub fn buffer_ms(&self) -> (r: u32)
        ensures
            r == (if self@.rate == 0 {
                0
            } else {
                (self@.queue.len() as int * 1000) / (self@.rate as int)
            }),
            r <= MAX_BUFFER_MS,
    {
        proof {
            use_type_invariant(self);
        }
        if self.rate == 0 {
            return 0;
        }
        let count: usize = self.queue.len();
        let ghost n = count as int;
        let ghost rate = self.rate as int;
        assert(n * 1000 <= rate * 300) by {
            assert(n <= (rate * 300) / 1000);
        }
        assert((n * 1000) / rate <= 300) by (nonlinear_arith)
            requires
                n * 1000 <= rate * 300,
                rate > 0,
        ;
        assert(0 <= (n * 1000) / rate) by (nonlinear_arith)
            requires
                n >= 0,
                rate > 0,
        ;
        (count as u64 * 1000 / self.rate as u64) as u32
    }
}

fn trim_oldest(queue: &mut VecDeque<u32>, cap: usize)
    ensures
        final(queue)@ == newest(old(queue)@, cap as int),
{
    let ghost all = queue@;
    while queue.len() > cap
        invariant
            all.len() <= cap ==> queue@ == all,
            all.len() > cap ==> cap <= queue@.len() <= all.len() && queue@ == all.skip(
                all.len() - queue@.len(),
            ),
        decreases queue@.len(),
    {
        let ghost before = queue@;
        queue.pop_front();
        assert(queue@ =~= all.skip(all.len() - queue@.len()));
    }
}

/// Nothing that is played was not received, and the delay stays bounded: a queue
/// within the cap stays within it, whatever is received or played.
pub proof fn law_delay_stays_bounded(v: PlayoutView, samples: Seq<u32>, frames: nat)
    requires
        v.queue.len() <= v.cap(),
    ensures
        v.received(samples).queue.len() <= v.cap(),
        v.after_block(frames).queue.len() <= v.cap(),
        forall|i: int|
            0 <= i < frames ==> (#[trigger] v.block(frames)[i]) == 0 || (i < v.queue.len()
                && v.block(frames)[i] == v.queue[i]),
{
}

/// What is played comes in the order in which it was received: while playing is
/// under way and the queue lasts, two blocks in a row are one longer block.
pub proof fn law_blocks_join(v: PlayoutView, a: nat, b: nat)
    requires
        v.plays(),
        a + b <= v.queue.len(),
    ensures
        v.block(a) + v.after_block(a).block(b) == v.block(a + b),
        v.after_block(a).after_block(b) == v.after_block(a + b),
{
    assert(v.block(a) + v.after_block(a).block(b) =~= v.block(a + b));
    assert(v.after_block(a).after_block(b).queue =~= v.after_block(a + b).queue);
}

// ---------------------------------------------------------------------------
// What the buffer, the meter and the choice of a device are for
// ---------------------------------------------------------------------------

/// Nothing received is lost while it fits: new samples queue up behind the old
/// ones, whether or not playing is under way, up to 300 milliseconds; what is more
/// leaves at the old end. Receiving neither starts nor stops the playing.
pub proof fn law_received_sound_is_kept(v: PlayoutView, samples: Seq<u32>)
    ensures
        ({
            let most = (v.rate as int * 300) / 1000;
            let all = v.queue + samples;
            let after = v.received(samples);
            &&& all.len() <= most ==> after.queue == all
            &&& all.len() > most ==> after.queue == all.subrange(all.len() - most, all.len() as int)
            &&& after.started == v.started
            &&& after.rate == v.rate
        }),
{
    let most = (v.rate as int * 300) / 1000;
    let all = v.queue + samples;
    if all.len() > most {
        assert(v.received(samples).queue =~= all.subrange(all.len() - most, all.len() as int));
    }
}

/// Playing starts when 60 milliseconds have queued up, and goes on until the queue
/// runs dry.
pub proof fn law_playing_starts_at_the_watermark(v: PlayoutView)
    ensures
        v.started ==> v.plays(),
        v.queue.len() >= (v.rate as int * 60) / 1000 ==> v.plays(),
        !v.started && v.queue.len() < (v.rate as int * 60) / 1000 ==> !v.plays(),
{
}

/// Before playing has started, a block is silence and takes nothing from the
/// queue. Once it has, a block takes the oldest samples, in order; one that the
/// queue cannot fill is filled up with silence, and playing waits again.
pub proof fn law_blocks_come_from_the_queue(v: PlayoutView, frames: nat)
    ensures
        v.block(frames).len() == frames,
        v.after_block(frames).rate == v.rate,
        !v.plays() ==> v.after_block(frames) == v && forall|i: int|
            0 <= i < frames ==> #[trigger] v.block(frames)[i] == 0,
        v.plays() && frames <= v.queue.len() ==> ({
            &&& v.block(frames) + v.after_block(frames).queue == v.queue
            &&& v.after_block(frames).started
        }),
        v.plays() && frames > v.queue.len() ==> ({
            &&& v.block(frames).take(v.queue.len() as int) == v.queue
            &&& forall|i: int| v.queue.len() <= i < frames ==> #[trigger] v.block(frames)[i] == 0
            &&& v.after_block(frames).queue.len() == 0
            &&& !v.after_block(frames).started
        }),
{
    if v.plays() && frames <= v.queue.len() {
        assert(v.block(frames) + v.after_block(frames).queue =~= v.queue);
    }
    if v.plays() && frames > v.queue.len() {
        assert(v.block(frames).take(v.queue.len() as int) =~= v.queue);
    }
}

/// What arrives while playing is under way is played behind what was queued: as
/// long as it fits, the next block holds the old samples and then the new ones.
pub proof fn law_stream_plays_on(v: PlayoutView, samples: Seq<u32>, played: nat, frames: nat)
    requires
        v.plays(),
        played <= v.queue.len(),
        v.queue.len() - played + samples.len() <= (v.rate as int * 300) / 1000,
        frames <= v.queue.len() - played + samples.len(),
    ensures
        v.after_block(played).received(samples).block(frames) == (v.queue + samples).subrange(
            played as int,
            (played + frames) as int,
        ),
{
    law_blocks_come_from_the_queue(v, played);
    let mid = v.after_block(played);
    law_received_sound_is_kept(mid, samples);
    let now = mid.received(samples);
    law_blocks_come_from_the_queue(now, frames);
    assert(mid.queue =~= v.queue.skip(played as int));
    assert(now.block(frames) =~= (v.queue + samples).subrange(played as int, (played + frames) as int));
}

/// The meter shows the block that came last and remembers the last 150, in order;
/// the count of blocks goes up by one, around the end.
pub proof fn law_meter_shows_the_last_block(m: MeterView, peak: u32)
    ensures
        ({
            let after = m.pushed(peak);
            &&& after.level == peak
            &&& after.wave.len() > 0 && after.wave.last() == peak
            &&& m.wave.len() < 150 ==> after.wave == m.wave.push(peak)
            &&& m.wave.len() == 150 ==> after.wave == m.wave.drop_first().push(peak)
            &&& m.seq < u64::MAX ==> after.seq == m.seq + 1
            &&& m.seq == u64::MAX ==> after.seq == 0
        }),
{
    if m.wave.len() == 150 {
        assert(m.pushed(peak).wave =~= m.wave.drop_first().push(peak));
    }
}

/// The device that the user names is used whenever it is there, and the first of
/// them; the default device stands in only where none has the name.
pub proof fn law_named_device_is_used(
    wanted: Seq<char>,
    names: Seq<Option<Seq<char>>>,
    platform: Platform,
    pick: Pick,
)
    requires
        output_pick(Some(wanted), names, platform, pick) || first_device(
            names,
            |n: Seq<char>| n == wanted,
            pick,
        ),
    ensures
        pick is Default <==> !names.contains(Some(wanted)),
        pick matches Pick::Listed(i) ==> i < names.len() && names[i as int] == Some(wanted)
            && !names.take(i as int).contains(Some(wanted)),
{
    if names.contains(Some(wanted)) {
        let k = choose|k: int| 0 <= k < names.len() && names[k] == Some(wanted);
        assert(names[k] is Some);
    }
    match pick {
        Pick::Listed(i) => {
            let before = names.take(i as int);
            if before.contains(Some(wanted)) {
                let k = choose|k: int| 0 <= k < before.len() && before[k] == Some(wanted);
                assert(names[k] is Some);
            }
        },
        Pick::Default => {},
    }
}

/// Where the user names no device, the first virtual microphone is used whenever
/// there is one, and only else the default device.
pub proof fn law_virtual_microphone_is_preferred(
    names: Seq<Option<Seq<char>>>,
    platform: Platform,
    pick: Pick,
)
    requires
        output_pick(None, names, platform, pick),
    ensures
        forall|k: int|
            0 <= k < names.len() && (#[trigger] names[k]) is Some && virtual_mic(
                names[k]->0,
                platform,
            ) ==> (pick matches Pick::Listed(i) && i <= k),
        pick matches Pick::Listed(i) ==> i < names.len() && names[i as int] is Some && virtual_mic(
            names[i as int]->0,
            platform,
        ),
{
}

/// The virtual microphone is told by a word in its name: CABLE on Windows,
/// BlackHole everywhere else.
pub proof fn law_virtual_microphone_is_told_by_a_word(
    before: Seq<char>,
    behind: Seq<char>,
    name: Seq<char>,
    platform: Platform,
)
    ensures
        platform == Platform::Windows ==> virtual_mic(before + "CABLE"@ + behind, platform),
        platform != Platform::Windows ==> virtual_mic(before + "BlackHole"@ + behind, platform),
        platform == Platform::Windows && virtual_mic(name, platform) ==> exists|i: int|
            0 <= i <= name.len() - 5 && #[trigger] name.subrange(i, i + 5) == "CABLE"@,
        platform != Platform::Windows && virtual_mic(name, platform) ==> exists|i: int|
            0 <= i <= name.len() - 9 && #[trigger] name.subrange(i, i + 9) == "BlackHole"@,
{
    reveal_strlit("CABLE");
    reveal_strlit("BlackHole");
    let at = before.len() as int;
    let c = before + "CABLE"@ + behind;
    let b = before + "BlackHole"@ + behind;
    assert(c.subrange(at, at + 5) =~= "CABLE"@);
    assert(b.subrange(at, at + 9) =~= "BlackHole"@);
    assert(text::occurs_at(c, "CABLE"@, at));
    assert(text::occurs_at(b, "BlackHole"@, at));
    if virtual_mic(name, platform) {
        if platform == Platform::Windows {
            let i = choose|i: int| text::occurs_at(name, "CABLE"@, i);
            assert(name.subrange(i, i + 5) == "CABLE"@);
        } else {
            let i = choose|i: int| text::occurs_at(name, "BlackHole"@, i);
            assert(name.subrange(i, i + 9) == "BlackHole"@);
        }
    }
}

/// Every device with a name is shown, in order, and none without: a list shows
/// what its parts show.
pub proof fn law_named_devices_are_shown(
    a: Seq<Option<Seq<char>>>,
    b: Seq<Option<Seq<char>>>,
    name: Seq<char>,
)
    ensures
        present(a + b) == present(a) + present(b),
        present(seq![Some(name)]) == seq![name],
        present(seq![None]) == Seq::<Seq<char>>::empty(),
    decreases b.len(),
{
    let one: Seq<Option<Seq<char>>> = seq![Some(name)];
    let hidden: Seq<Option<Seq<char>>> = seq![None];
    let none: Seq<Option<Seq<char>>> = Seq::empty();
    assert(present(none) == Seq::<Seq<char>>::empty());
    assert(one.drop_last() =~= none);
    assert(hidden.drop_last() =~= none);
    assert(one.last() == Some(name));
    assert(hidden.last() is None);
    assert(present(one) =~= seq![name]);
    if b.len() == 0 {
        assert(a + b =~= a);
        assert(present(a) + present(b) =~= present(a));
    } else {
        law_named_devices_are_shown(a, b.drop_last(), name);
        assert((a + b).drop_last() =~= a + b.drop_last());
        assert(present(a + b) =~= present(a) + present(b));
    }
}

/// What is known of listed devices is each name, in order; the loopback device has
/// its platform's name.
pub proof fn law_devices_are_known_whole(names: Seq<Option<String>>, i: int, platform: Platform)
    ensures
        name_views(names).len() == names.len(),
        0 <= i < names.len() ==> {
            &&& names[i] is None ==> name_views(names)[i] is None
            &&& names[i] matches Some(n) ==> name_views(names)[i] == Some(n@)
        },
        platform == Platform::Windows ==> mic_label(platform) == "CABLE Input(VB-Cable)"@,
        platform != Platform::Windows ==> mic_label(platform) == "BlackHole"@,
        virtual_mic(mic_label(platform), platform),
{
    reveal_strlit("CABLE Input(VB-Cable)");
    reveal_strlit("CABLE");
    let label = "CABLE Input(VB-Cable)"@;
    assert(label.subrange(0, 5) =~= "CABLE"@);
    assert(text::occurs_at(label, "CABLE"@, 0));
    let hole = "BlackHole"@;
    assert(hole.subrange(0, hole.len() as int) =~= hole);
    assert(text::occurs_at(hole, hole, 0));
}

} // verus!
