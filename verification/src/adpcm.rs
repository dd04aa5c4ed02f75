//! IMA ADPCM: 16 bit samples in 4 bits each, with one adaptive predictor that
//! the encoding and the decoding end advance in lockstep.
use vstd::prelude::*;

verus! {

/// How far a code moves the step index.
pub const IMA_INDEX_TABLE: [i32; 16] = [-1, -1, -1, -1, 2, 4, 6, 8, -1, -1, -1, -1, 2, 4, 6, 8];

/// The quantizer steps.
pub const IMA_STEP_TABLE: [i32; 89] = [
    7, 8, 9, 10, 11, 12, 13, 14, 16, 17, 19, 21, 23, 25, 28, 31, 34, 37, 41, 45, 50, 55, 60, 66,
    73, 80, 88, 97, 107, 118, 130, 143, 157, 173, 190, 209, 230, 253, 279, 307, 337, 371, 408,
    449, 494, 544, 598, 658, 724, 796, 876, 963, 1060, 1166, 1282, 1411, 1552, 1707, 1878, 2066,
    2272, 2499, 2749, 3024, 3327, 3660, 4026, 4428, 4871, 5358, 5894, 6484, 7132, 7845, 8630,
    9493, 10442, 11487, 12635, 13899, 15289, 16818, 18500, 20350, 22385, 24623, 27086, 29794,
    32767,
];

proof fn lemma_tables()
    ensures
        forall|i: int| 0 <= i < 89 ==> 7 <= #[trigger] IMA_STEP_TABLE@[i] <= 32767,
        forall|i: int| 0 <= i < 16 ==> -1 <= #[trigger] IMA_INDEX_TABLE@[i] <= 8,
{
}

/// A value held between two bounds.
pub open spec fn clamped(x: int, lo: int, hi: int) -> int {
    if x < lo {
        lo
    } else if x > hi {
        hi
    } else {
        x
    }
}

/// The state of the predictor.
pub struct Predictor {
    pub predictor: int,
    pub index: int,
}

impl Predictor {
    /// The state that both ends start from.
    pub open spec fn start() -> Predictor {
        Predictor { predictor: 0, index: 0 }
    }

    /// The predicted sample fits 16 bits and the index lies within the step table.
    pub open spec fn valid(self) -> bool {
        i16::MIN <= self.predictor <= i16::MAX && 0 <= self.index <= 88
    }

    /// The current quantizer step.
    pub open spec fn step(self) -> int {
        IMA_STEP_TABLE@[self.index] as int
    }
}

/// The bit of weight `w` (a power of two) in a code.
pub open spec fn code_bit(code: int, w: int) -> bool {
    (code / w) % 2 == 1
}

/// The change of the predicted sample that a code stands for at a given step.
pub open spec fn code_delta(code: int, step: int) -> int {
    let size = step / 8 + (if code_bit(code, 4) {
        step
    } else {
        0
    }) + (if code_bit(code, 2) {
        step / 2
    } else {
        0
    }) + (if code_bit(code, 1) {
        step / 4
    } else {
        0
    });
    if code_bit(code, 8) {
        -size
    } else {
        size
    }
}

/// The state after a code: the predicted sample moves by the code's change, the
/// index by the code's entry in the index table, both within their bounds.
pub open spec fn advanced(s: Predictor, code: int) -> Predictor {
    Predictor {
        predictor: clamped(
            s.predictor + code_delta(code, s.step()),
            i16::MIN as int,
            i16::MAX as int,
        ),
        index: clamped(s.index + IMA_INDEX_TABLE@[code], 0, 88),
    }
}

/// The code of a sample: a sign bit, then the distance to the predicted sample
/// in units of the step, its half and its quarter, taken greedily.
pub open spec fn sample_code(s: Predictor, sample: int) -> int {
    let step = s.step();
    let sign: int = if sample < s.predictor {
        8
    } else {
        0
    };
    let d0 = if sample < s.predictor {
        s.predictor - sample
    } else {
        sample - s.predictor
    };
    let b4: int = if d0 >= step {
        4
    } else {
        0
    };
    let d1 = if d0 >= step {
        d0 - step
    } else {
        d0
    };
    let b2: int = if d1 >= step / 2 {
        2
    } else {
        0
    };
    let d2 = if d1 >= step / 2 {
        d1 - step / 2
    } else {
        d1
    };
    let b1: int = if d2 >= step / 4 {
        1
    } else {
        0
    };
    sign + b4 + b2 + b1
}

/// The codes of a frame, encoded from state `s`.
pub open spec fn frame_codes(s: Predictor, frame: Seq<i16>) -> Seq<int>
    decreases frame.len(),
{
    if frame.len() == 0 {
        Seq::empty()
    } else {
        let before = after_codes(s, frame_codes(s, frame.drop_last()));
        frame_codes(s, frame.drop_last()).push(sample_code(before, frame.last() as int))
    }
}

/// The state after a sequence of codes.
pub open spec fn after_codes(s: Predictor, codes: Seq<int>) -> Predictor
    decreases codes.len(),
{
    if codes.len() == 0 {
        s
    } else {
        advanced(after_codes(s, codes.drop_last()), codes.last())
    }
}

/// The samples that a sequence of codes decodes to: after each code, the
/// predicted sample.
pub open spec fn decoded(s: Predictor, codes: Seq<int>) -> Seq<int> {
    Seq::new(codes.len(), |i: int| after_codes(s, codes.take(i + 1)).predictor)
}

/// Codes packed into bytes: two per byte, the earlier one in the low half, and
/// zero in the high half behind a last odd one.
pub open spec fn packed(codes: Seq<int>) -> Seq<u8> {
    Seq::new(
        ((codes.len() + 1) / 2) as nat,
        |i: int|
            (codes[2 * i] + (if 2 * i + 1 < codes.len() {
                16 * codes[2 * i + 1]
            } else {
                0
            })) as u8,
    )
}

/// The first `n` codes packed into bytes.
pub open spec fn unpacked(data: Seq<u8>, n: nat) -> Seq<int> {
    Seq::new(
        n,
        |i: int|
            if i % 2 == 0 {
                (data[i / 2] % 16) as int
            } else {
                (data[i / 2] / 16) as int
            },
    )
}

/// Every code fits 4 bits.
pub open spec fn codes_valid(codes: Seq<int>) -> bool {
    forall|i: int| 0 <= i < codes.len() ==> 0 <= #[trigger] codes[i] < 16
}

proof fn lemma_sample_code(s: Predictor, sample: int)
    ensures
        0 <= sample_code(s, sample) < 16,
{
}

proof fn lemma_advanced(s: Predictor, code: int)
    requires
        s.valid(),
        0 <= code < 16,
    ensures
        advanced(s, code).valid(),
{
}

proof fn lemma_after_codes(s: Predictor, codes: Seq<int>)
    requires
        s.valid(),
        codes_valid(codes),
    ensures
        after_codes(s, codes).valid(),
    decreases codes.len(),
{
    if codes.len() > 0 {
        let t = codes.drop_last();
        assert forall|i: int| 0 <= i < t.len() implies 0 <= #[trigger] t[i] < 16 by {
            assert(t[i] == codes[i]);
        }
        lemma_after_codes(s, t);
        lemma_advanced(after_codes(s, t), codes.last());
    }
}

proof fn lemma_frame_codes(s: Predictor, frame: Seq<i16>)
    ensures
        frame_codes(s, frame).len() == frame.len(),
        codes_valid(frame_codes(s, frame)),
    decreases frame.len(),
{
    if frame.len() > 0 {
        lemma_frame_codes(s, frame.drop_last());
        let t = frame_codes(s, frame.drop_last());
        let codes = frame_codes(s, frame);
        assert forall|i: int| 0 <= i < codes.len() implies 0 <= #[trigger] codes[i] < 16 by {
            if i < t.len() {
                assert(codes[i] == t[i]);
            }
        }
    }
}

proof fn lemma_frame_grows(s: Predictor, frame: Seq<i16>, i: int)
    requires
        0 <= i < frame.len(),
    ensures
        frame_codes(s, frame.take(i)).len() == i,
        ({
            let codes = frame_codes(s, frame.take(i));
            let code = sample_code(after_codes(s, codes), frame[i] as int);
            &&& frame_codes(s, frame.take(i + 1)) == codes.push(code)
            &&& after_codes(s, frame_codes(s, frame.take(i + 1))) == advanced(
                after_codes(s, codes),
                code,
            )
        }),
{
    let codes = frame_codes(s, frame.take(i));
    let code = sample_code(after_codes(s, codes), frame[i] as int);
    lemma_frame_codes(s, frame.take(i));
    assert(frame.take(i + 1).drop_last() =~= frame.take(i));
    assert(codes.push(code).drop_last() =~= codes);
}

proof fn lemma_packed_pair(codes: Seq<int>, lo: int, hi: int)
    requires
        codes.len() % 2 == 0,
        0 <= lo < 16,
        0 <= hi < 16,
    ensures
        packed(codes.push(lo).push(hi)) == packed(codes).push((lo + 16 * hi) as u8),
{
    let more = codes.push(lo).push(hi);
    assert forall|j: int| 0 <= j < packed(codes).len() implies packed(more)[j] == packed(
        codes,
    )[j] by {
        assert(more[2 * j] == codes[2 * j]);
        assert(more[2 * j + 1] == codes[2 * j + 1]);
    }
    let k = codes.len() as int / 2;
    assert(more[2 * k] == lo && more[2 * k + 1] == hi);
    assert(packed(more) =~= packed(codes).push((lo + 16 * hi) as u8));
}

/// Two samples encoded in a row from state `s` make this byte and end in `t`.
#[verifier::opaque]
spec fn pair_encoded(s: Predictor, first: int, second: int, byte: u8, t: Predictor) -> bool {
    let lo = sample_code(s, first);
    let mid = advanced(s, lo);
    let hi = sample_code(mid, second);
    byte == lo + 16 * hi && t == advanced(mid, hi)
}

proof fn lemma_frame_grows_by_pair(
    s: Predictor,
    frame: Seq<i16>,
    i: int,
    byte: u8,
    t: Predictor,
)
    requires
        0 <= i,
        i + 1 < frame.len(),
        i % 2 == 0,
        pair_encoded(
            after_codes(s, frame_codes(s, frame.take(i))),
            frame[i] as int,
            frame[i + 1] as int,
            byte,
            t,
        ),
    ensures
        packed(frame_codes(s, frame.take(i + 2))) == packed(frame_codes(s, frame.take(i))).push(
            byte,
        ),
        t == after_codes(s, frame_codes(s, frame.take(i + 2))),
{
    reveal(pair_encoded);
    let codes = frame_codes(s, frame.take(i));
    let mid = after_codes(s, codes);
    let lo = sample_code(mid, frame[i] as int);
    let hi = sample_code(advanced(mid, lo), frame[i + 1] as int);
    lemma_frame_grows(s, frame, i);
    lemma_frame_grows(s, frame, i + 1);
    lemma_sample_code(mid, frame[i] as int);
    lemma_sample_code(advanced(mid, lo), frame[i + 1] as int);
    lemma_packed_pair(codes, lo, hi);
}

proof fn lemma_packed_last(codes: Seq<int>, last: int)
    requires
        codes.len() % 2 == 0,
        0 <= last < 16,
    ensures
        packed(codes.push(last)) == packed(codes).push(last as u8),
{
    let more = codes.push(last);
    assert forall|j: int| 0 <= j < packed(codes).len() implies packed(more)[j] == packed(
        codes,
    )[j] by {
        assert(more[2 * j] == codes[2 * j]);
        assert(more[2 * j + 1] == codes[2 * j + 1]);
    }
    let k = codes.len() as int / 2;
    assert(more[2 * k] == last);
    assert(packed(more) =~= packed(codes).push(last as u8));
}

/// Unpacking what was packed gives the codes back.
pub proof fn lemma_unpack_pack(codes: Seq<int>)
    requires
        codes_valid(codes),
    ensures
        unpacked(packed(codes), codes.len()) == codes,
{
    let bytes = packed(codes);
    assert forall|i: int| 0 <= i < codes.len() implies #[trigger] unpacked(
        bytes,
        codes.len(),
    )[i] == codes[i] by {
        let k = i / 2;
        assert(0 <= codes[2 * k] < 16);
        if 2 * k + 1 < codes.len() {
            assert(0 <= codes[2 * k + 1] < 16);
        }
        if i % 2 == 0 {
            assert(i == 2 * k);
        } else {
            assert(i == 2 * k + 1);
        }
    }
    assert(unpacked(bytes, codes.len()) =~= codes);
}

/// Both ends stay in step: a decoder that starts a frame in the encoder's state
/// reads the encoder's codes, and ends the frame in the encoder's state.
pub proof fn law_ends_stay_in_step(s: Predictor, frame: Seq<i16>)
    requires
        s.valid(),
    ensures
        ({
            let codes = frame_codes(s, frame);
            let bytes = packed(codes);
            &&& bytes.len() == (frame.len() + 1) / 2
            &&& unpacked(bytes, frame.len()) == codes
            &&& after_codes(s, unpacked(bytes, frame.len())) == after_codes(s, codes)
            &&& after_codes(s, codes).valid()
        }),
{
    lemma_frame_codes(s, frame);
    lemma_unpack_pack(frame_codes(s, frame));
    lemma_after_codes(s, frame_codes(s, frame));
}

/// Every decoded sample is a 16 bit sample, whatever the codes.
pub proof fn law_decoded_samples_fit(s: Predictor, codes: Seq<int>)
    requires
        s.valid(),
        codes_valid(codes),
    ensures
        decoded(s, codes).len() == codes.len(),
        forall|i: int|
            0 <= i < codes.len() ==> i16::MIN <= #[trigger] decoded(s, codes)[i] <= i16::MAX,
{
    assert forall|i: int| 0 <= i < codes.len() implies i16::MIN <= #[trigger] decoded(
        s,
        codes,
    )[i] <= i16::MAX by {
        let t = codes.take(i + 1);
        assert forall|j: int| 0 <= j < t.len() implies 0 <= #[trigger] t[j] < 16 by {
            assert(t[j] == codes[j]);
        }
        lemma_after_codes(s, t);
    }
}

/// The state runs on across frames: the codes of two frames in a row are the
/// codes of the first, then those of the second from where the first ended.
pub proof fn law_state_runs_across_frames(s: Predictor, a: Seq<i16>, b: Seq<i16>)
    ensures
        frame_codes(s, a + b) == frame_codes(s, a) + frame_codes(
            after_codes(s, frame_codes(s, a)),
            b,
        ),
        after_codes(s, frame_codes(s, a + b)) == after_codes(
            after_codes(s, frame_codes(s, a)),
            frame_codes(after_codes(s, frame_codes(s, a)), b),
        ),
    decreases b.len(),
{
    let mid = after_codes(s, frame_codes(s, a));
    if b.len() == 0 {
        assert(a + b =~= a);
        assert(frame_codes(s, a) + frame_codes(mid, b) =~= frame_codes(s, a));
    } else {
        let c = b.drop_last();
        law_state_runs_across_frames(s, a, c);
        assert((a + b).drop_last() =~= a + c);
        assert((a + b).last() == b.last());
        assert(frame_codes(s, a + b) =~= frame_codes(s, a) + frame_codes(mid, b));
        let whole = frame_codes(s, a + b);
        let part = frame_codes(mid, b);
        assert(whole.drop_last() =~= frame_codes(s, a + c));
        assert(part.drop_last() =~= frame_codes(mid, c));
    }
}

/// The codec: one end's predictor.
pub struct ImaAdpcm {
    predictor: i32,
    index: i32,
}

impl View for ImaAdpcm {
    type V = Predictor;

    closed spec fn view(&self) -> Predictor {
        Predictor { predictor: self.predictor as int, index: self.index as int }
    }
}

impl ImaAdpcm {
    #[verifier::type_invariant]
    spec fn in_bounds(self) -> bool {
        -32768 <= self.predictor <= 32767 && 0 <= self.index <= 88
    }

    /// An end in the start state.
    pub fn new() -> (r: ImaAdpcm)
        ensures
            r@ == Predictor::start(),
    {
        ImaAdpcm { predictor: 0, index: 0 }
    }

    /// Encodes one sample as a 4 bit code and advances the predictor by it.
    pub fn encode_sample(&mut self, sample: i16) -> (code: u8)
        ensures
            code == sample_code(old(self)@, sample as int),
            code < 16,
            final(self)@ == advanced(old(self)@, code as int),
    {
        proof {
            use_type_invariant(&*self);
            lemma_tables();
        }
        let step: i32 = IMA_STEP_TABLE[self.index as usize];
        let mut diff: i32 = sample as i32 - self.predictor;
        let mut code: u8 = 0;
        if diff < 0 {
            code = 8;
            diff = -diff;
        }
        if diff >= step {
            code = code + 4;
            diff = diff - step;
        }
        if diff >= step / 2 {
            code = code + 2;
            diff = diff - step / 2;
        }
        if diff >= step / 4 {
            code = code + 1;
        }
        self.advance(code);
        code
    }

    /// Advances the predictor by a 4 bit code and returns the predicted sample.
    /// Both ends use it, which keeps them in the same state.
    pub fn advance(&mut self, code: u8) -> (sample: i16)
        requires
            code < 16,
        ensures
            final(self)@ == advanced(old(self)@, code as int),
            sample == final(self)@.predictor,
    {
        proof {
            use_type_invariant(&*self);
            lemma_tables();
        }
        let step: i32 = IMA_STEP_TABLE[self.index as usize];
        let mut delta: i32 = step / 8;
        if (code / 4) % 2 == 1 {
            delta = delta + step;
        }
        if (code / 2) % 2 == 1 {
            delta = delta + step / 2;
        }
        if code % 2 == 1 {
            delta = delta + step / 4;
        }
        if code >= 8 {
            delta = -delta;
        }
        let moved: i32 = self.predictor + delta;
        let predictor: i32 = if moved < -32768 {
            -32768
        } else if moved > 32767 {
            32767
        } else {
            moved
        };
        let shifted: i32 = self.index + IMA_INDEX_TABLE[code as usize];
        let index: i32 = if shifted < 0 {
            0
        } else if shifted > 88 {
            88
        } else {
            shifted
        };
        self.predictor = predictor;
        self.index = index;
        predictor as i16
    }

    /// Encodes two samples as one byte.
    fn encode_pair(&mut self, first: i16, second: i16) -> (byte: u8)
        ensures
            pair_encoded(old(self)@, first as int, second as int, byte, final(self)@),
    {
        let lo: u8 = self.encode_sample(first);
        let hi: u8 = self.encode_sample(second);
        proof {
            reveal(pair_encoded);
        }
        lo + 16 * hi
    }

    /// Encodes a frame and appends its bytes: two samples per byte, the earlier
    /// one in the low half.
    pub fn encode_into(&mut self, frame: &[i16], out: &mut Vec<u8>)
        ensures
            final(out)@ == old(out)@ + packed(frame_codes(old(self)@, frame@)),
            final(self)@ == after_codes(old(self)@, frame_codes(old(self)@, frame@)),
    {
        let n: usize = frame.len();
        let ghost s = self@;
        let ghost before = out@;
        let mut i: usize = 0;
        assert(frame@.take(0) =~= Seq::<i16>::empty());
        assert(packed(frame_codes(s, frame@.take(0))) =~= Seq::<u8>::empty());
        while i + 1 < n
            invariant
                n == frame@.len(),
                i <= n,
                i % 2 == 0,
                out@ == before + packed(frame_codes(s, frame@.take(i as int))),
                self@ == after_codes(s, frame_codes(s, frame@.take(i as int))),
            decreases n - i,
        {
            let byte: u8 = self.encode_pair(frame[i], frame[i + 1]);
            out.push(byte);
            proof {
                lemma_frame_grows_by_pair(s, frame@, i as int, byte, self@);
            }
            i = i + 2;
        }
        if i < n {
            let last: u8 = self.encode_sample(frame[i]);
            out.push(last);
            proof {
                lemma_frame_grows(s, frame@, i as int);
                lemma_packed_last(frame_codes(s, frame@.take(i as int)), last as int);
                assert(frame@.take(i + 1) =~= frame@);
            }
        } else {
            assert(frame@.take(n as int) =~= frame@);
        }
    }

    /// Decodes `n_samples` samples and appends them.
    pub fn decode_into(&mut self, data: &[u8], n_samples: usize, out: &mut Vec<i16>)
        requires
            (n_samples + 1) / 2 <= data@.len(),
        ensures
            final(self)@ == after_codes(old(self)@, unpacked(data@, n_samples as nat)),
            final(out)@.len() == old(out)@.len() + n_samples,
            final(out)@.take(old(out)@.len() as int) == old(out)@,
            forall|i: int|
                0 <= i < n_samples ==> #[trigger] final(out)@[old(out)@.len() + i] == decoded(
                    old(self)@,
                    unpacked(data@, n_samples as nat),
                )[i],
    {
        let ghost s = self@;
        let ghost before = out@;
        let ghost codes = unpacked(data@, n_samples as nat);
        assert(codes.take(0) =~= Seq::<int>::empty());
        for i in 0..n_samples
            invariant
                (n_samples + 1) / 2 <= data@.len(),
                codes == unpacked(data@, n_samples as nat),
                self@ == after_codes(s, codes.take(i as int)),
                out@.len() == before.len() + i,
                out@.take(before.len() as int) == before,
                forall|j: int|
                    0 <= j < i ==> #[trigger] out@[before.len() + j] == decoded(s, codes)[j],
        {
            let byte: u8 = data[i / 2];
            let code: u8 = if i % 2 == 0 {
                byte % 16
            } else {
                byte / 16
            };
            let sample: i16 = self.advance(code);
            let ghost prev = out@;
            out.push(sample);
            proof {
                assert(codes.take(i + 1).drop_last() =~= codes.take(i as int));
                assert(codes.take(i + 1).last() == code);
                assert(out@.take(before.len() as int) =~= prev.take(before.len() as int));
                assert forall|j: int| 0 <= j < i + 1 implies #[trigger] out@[before.len() + j]
                    == decoded(s, codes)[j] by {
                    if j < i {
                        assert(out@[before.len() + j] == prev[before.len() + j]);
                    }
                }
            }
        }
        assert(codes.take(n_samples as int) =~= codes);
    }
}

// ---------------------------------------------------------------------------
// What the codec is for
// ---------------------------------------------------------------------------

/// The quantizer steps grow by a tenth from one to the next, from the finest that
/// makes sense for 16 bit samples to full scale.
pub proof fn law_steps_grow_by_a_tenth(i: int)
    requires
        0 <= i < 88,
    ensures
        IMA_STEP_TABLE@[0] == 7,
        IMA_STEP_TABLE@[88] == i16::MAX,
        IMA_STEP_TABLE@[i] < IMA_STEP_TABLE@[i + 1],
        i < 87 ==> -8 <= 10 * IMA_STEP_TABLE@[i + 1] - 11 * IMA_STEP_TABLE@[i] <= 8,
        forall|s: Predictor| s.index == i ==> #[trigger] s.step() == IMA_STEP_TABLE@[i],
{
}

/// The code of a sample says on which side of the predicted sample it lies, and
/// is the largest whose distance, made of the step, its half and its quarter, does
/// not exceed that of the sample. A sample further away than all of them gets the
/// largest code.
pub proof fn law_code_is_the_largest_that_fits(s: Predictor, sample: i16)
    requires
        s.valid(),
    ensures
        ({
            let step = s.step();
            let code = sample_code(s, sample as int);
            let far = if sample < s.predictor {
                s.predictor - sample
            } else {
                sample - s.predictor
            };
            let reach = seq![
                0,
                step / 4,
                step / 2,
                step / 2 + step / 4,
                step,
                step + step / 4,
                step + step / 2,
                step + step / 2 + step / 4,
            ];
            let size = code % 8;
            &&& 0 <= code < 16
            &&& code >= 8 <==> sample < s.predictor
            &&& reach[size] <= far
            &&& size < 7 ==> far < reach[size + 1]
            &&& far >= 2 * step ==> size == 7
        }),
{
    lemma_tables();
}

/// The codec tracks its input: where the sample is less than two steps away from
/// the predicted one, the sample that comes out is within an eighth of the step,
/// give or take rounding. Where it is further away, what comes out lies between
/// the predicted sample and the sample, so the codec closes in.
pub proof fn law_codec_tracks_its_input(s: Predictor, sample: i16)
    requires
        s.valid(),
    ensures
        ({
            let step = s.step();
            let out = advanced(s, sample_code(s, sample as int)).predictor;
            let far = if sample < s.predictor {
                s.predictor - sample
            } else {
                sample - s.predictor
            };
            &&& far < 2 * step ==> -(step / 8 + 2) <= out - sample <= step / 8 + 2
            &&& far >= 2 * step && sample > s.predictor ==> s.predictor + step + step / 2 < out
                <= sample
            &&& far >= 2 * step && sample < s.predictor ==> sample <= out < s.predictor - step
                - step / 2
        }),
{
    lemma_tables();
}

/// What a code does, by its size (the three low bits) and its sign (the highest):
/// the predicted sample moves by an eighth of the step and, for each bit of the
/// size, by the step, its half or its quarter, held within 16 bits. Small sizes
/// make the next step finer by one place, large ones coarser by up to eight, held
/// within the table.
pub proof fn law_code_moves_the_predictor(s: Predictor, code: int)
    requires
        s.valid(),
        0 <= code < 16,
    ensures
        ({
            let step = s.step();
            let after = advanced(s, code);
            let size = code % 8;
            let reach = seq![
                0,
                step / 4,
                step / 2,
                step / 2 + step / 4,
                step,
                step + step / 4,
                step + step / 2,
                step + step / 2 + step / 4,
            ];
            let moved = step / 8 + reach[size];
            &&& code < 8 && s.predictor + moved <= 32767 ==> after.predictor == s.predictor + moved
            &&& code < 8 && s.predictor + moved > 32767 ==> after.predictor == 32767
            &&& code >= 8 && s.predictor - moved >= -32768 ==> after.predictor == s.predictor
                - moved
            &&& code >= 8 && s.predictor - moved < -32768 ==> after.predictor == -32768
            &&& size < 4 ==> after.index == (if s.index > 0 {
                s.index - 1
            } else {
                0
            })
            &&& size >= 4 && s.index + 2 * (size - 3) <= 88 ==> after.index == s.index + 2 * (size
                - 3)
            &&& size >= 4 && s.index + 2 * (size - 3) > 88 ==> after.index == 88
        }),
{
    lemma_tables();
    let size = code % 8;
    assert(code == size || code == 8 + size);
    assert(code_bit(code, 4) <==> size >= 4);
    assert(code_bit(code, 2) <==> (size == 2 || size == 3 || size == 6 || size == 7));
    assert(code_bit(code, 1) <==> (size == 1 || size == 3 || size == 5 || size == 7));
    assert(code_bit(code, 8) <==> code >= 8);
}

/// A frame is coded sample by sample: each code is that of its sample at the state
/// in which the codes before it leave the codec, and what comes out for it is the
/// predicted sample right behind it.
pub proof fn law_frame_is_coded_sample_by_sample(s: Predictor, frame: Seq<i16>, i: int)
    requires
        0 <= i < frame.len(),
    ensures
        ({
            let codes = frame_codes(s, frame);
            let before = after_codes(s, codes.take(i));
            &&& codes.len() == frame.len()
            &&& codes[i] == sample_code(before, frame[i] as int)
            &&& decoded(s, codes)[i] == advanced(before, codes[i]).predictor
        }),
    decreases frame.len(),
{
    let codes = frame_codes(s, frame);
    let last = frame.len() - 1;
    lemma_frame_codes(s, frame);
    lemma_frame_codes(s, frame.drop_last());
    let t = frame_codes(s, frame.drop_last());
    assert(codes.drop_last() =~= t);
    if i < last {
        law_frame_is_coded_sample_by_sample(s, frame.drop_last(), i);
        assert(codes.take(i) =~= t.take(i));
    } else {
        assert(codes.take(i) =~= t);
    }
    assert(codes.take(i + 1).drop_last() =~= codes.take(i));
    assert(codes.take(i + 1).last() == codes[i]);
}

/// Whatever the state, every sample of a frame that lies within two steps of where
/// the codec stands when it comes to it is heard at the other end within an eighth
/// of that step, give or take rounding.
pub proof fn law_frame_is_heard(s: Predictor, frame: Seq<i16>, i: int)
    requires
        s.valid(),
        0 <= i < frame.len(),
    ensures
        ({
            let codes = frame_codes(s, frame);
            let heard = decoded(s, unpacked(packed(codes), frame.len()))[i];
            let before = after_codes(s, codes.take(i));
            -2 * before.step() < frame[i] - before.predictor < 2 * before.step() ==> -(before.step()
                / 8 + 2) <= heard - frame[i] <= before.step() / 8 + 2
        }),
{
    let codes = frame_codes(s, frame);
    lemma_frame_codes(s, frame);
    lemma_unpack_pack(codes);
    law_frame_is_coded_sample_by_sample(s, frame, i);
    let t = codes.take(i);
    assert forall|j: int| 0 <= j < t.len() implies 0 <= #[trigger] t[j] < 16 by {
        assert(t[j] == codes[j]);
    }
    lemma_after_codes(s, t);
    law_codec_tracks_its_input(after_codes(s, t), frame[i]);
}

/// A byte holds two codes, the earlier one in the low half; behind a last odd code
/// the high half is zero. A decoder takes them out again.
pub proof fn law_byte_holds_two_codes(codes: Seq<int>, i: int)
    requires
        codes_valid(codes),
        0 <= 2 * i < codes.len(),
    ensures
        packed(codes).len() == codes.len() / 2 + codes.len() % 2,
        packed(codes)[i] % 16 == codes[2 * i],
        2 * i + 1 < codes.len() ==> packed(codes)[i] / 16 == codes[2 * i + 1],
        2 * i + 1 == codes.len() ==> packed(codes)[i] / 16 == 0,
        forall|data: Seq<u8>, n: nat|
            2 * i < n ==> #[trigger] unpacked(data, n)[2 * i] == data[i] % 16,
        forall|data: Seq<u8>, n: nat|
            2 * i + 1 < n ==> #[trigger] unpacked(data, n)[2 * i + 1] == data[i] / 16,
{
    assert(0 <= codes[2 * i] < 16);
    if 2 * i + 1 < codes.len() {
        assert(0 <= codes[2 * i + 1] < 16);
    }
    assert((2 * i) % 2 == 0 && (2 * i) / 2 == i);
    assert((2 * i + 1) % 2 == 1 && (2 * i + 1) / 2 == i);
}

/// A decoder goes on where it stopped: codes in two pieces decode as in one.
pub proof fn law_decoder_goes_on(s: Predictor, a: Seq<int>, b: Seq<int>)
    ensures
        after_codes(s, a + b) == after_codes(after_codes(s, a), b),
        decoded(s, a + b) == decoded(s, a) + decoded(after_codes(s, a), b),
        b.len() == 0 ==> after_codes(s, a + b) == after_codes(s, a),
        b.len() == 1 ==> after_codes(s, a + b) == advanced(after_codes(s, a), b[0]),
    decreases b.len(),
{
    if b.len() == 0 {
        assert(a + b =~= a);
    } else {
        law_decoder_goes_on(s, a, b.drop_last());
        assert((a + b).drop_last() =~= a + b.drop_last());
        if b.len() == 1 {
            assert(b.drop_last() =~= Seq::<int>::empty());
            assert(a + b.drop_last() =~= a);
        }
    }
    let mid = after_codes(s, a);
    assert forall|i: int| 0 <= i < (a + b).len() implies #[trigger] decoded(s, a + b)[i] == (decoded(
        s,
        a,
    ) + decoded(mid, b))[i] by {
        if i < a.len() {
            assert((a + b).take(i + 1) =~= a.take(i + 1));
        } else {
            let k = i - a.len();
            assert((a + b).take(i + 1) =~= a + b.take(k + 1));
            if k + 1 < b.len() {
                law_decoder_goes_on(s, a, b.take(k + 1));
            } else {
                assert(b.take(k + 1) =~= b);
            }
        }
    }
    assert(decoded(s, a + b) =~= decoded(s, a) + decoded(mid, b));
}

} // verus!
