//! The stream body: a 12 byte header, then length-prefixed frames of 16 bit
//! samples, then a zero-length frame with a reason code. All little endian.
use vstd::prelude::*;

verus! {

/// The first four bytes of a stream: `MSY1`.
pub const MAGIC: [u8; 4] = [0x4d, 0x53, 0x59, 0x31];

/// Reason code of the end frame: the server is closing.
pub const END_SERVER_CLOSING: u32 = 0;

/// Reason code of the end frame: another client took the microphone over.
pub const END_PREEMPTED: u32 = 1;

/// The length of the stream header.
pub const HEADER_LEN: usize = 12;

/// The longest frame that a client accepts, in samples.
pub const MAX_FRAME_SAMPLES: u32 = 1048576;

// ---------------------------------------------------------------------------
// Little endian numbers
// ---------------------------------------------------------------------------

/// A 16 bit number as two bytes, the low one first.
pub open spec fn le16(x: int) -> Seq<u8> {
    seq![(x % 256) as u8, (x / 256 % 256) as u8]
}

/// A 32 bit number as four bytes, the low one first.
pub open spec fn le32(x: int) -> Seq<u8> {
    seq![
        (x % 256) as u8,
        (x / 256 % 256) as u8,
        (x / 65536 % 256) as u8,
        (x / 16777216 % 256) as u8,
    ]
}

/// The number that four bytes denote, the low one first.
pub open spec fn from_le32(b: Seq<u8>) -> int {
    b[0] + 256 * b[1] + 65536 * b[2] + 16777216 * b[3]
}

/// A 16 bit sample as an unsigned number, in two's complement.
pub open spec fn sample_bits(s: i16) -> int {
    if s < 0 {
        s + 65536
    } else {
        s as int
    }
}

/// The sample that two bytes denote.
pub open spec fn from_sample_bits(u: int) -> i16 {
    if u >= 32768 {
        (u - 65536) as i16
    } else {
        u as i16
    }
}

/// Reading four little endian bytes gives the number back.
pub proof fn lemma_le32_reads_back(x: u32)
    ensures
        le32(x as int).len() == 4,
        from_le32(le32(x as int)) == x,
{
}

/// Four bytes hold the low 32 bits of a number.
proof fn lemma_low_bits(x: int)
    requires
        x >= 0,
    ensures
        le32(x % 0x1_0000_0000) == le32(x),
{
    let q = x / 0x1_0000_0000;
    let low = x % 0x1_0000_0000;
    assert(x == low + 0x1_0000_0000 * q);
    vstd::arithmetic::div_mod::lemma_hoist_over_denominator(low, 0x100_0000 * q, 256);
    vstd::arithmetic::div_mod::lemma_hoist_over_denominator(low, 0x1_0000 * q, 65536);
    vstd::arithmetic::div_mod::lemma_hoist_over_denominator(low, 0x100 * q, 16777216);
    vstd::arithmetic::div_mod::lemma_mod_multiples_vanish(0x100_0000 * q, low, 256);
    vstd::arithmetic::div_mod::lemma_mod_multiples_vanish(0x1_0000 * q, low / 256, 256);
    vstd::arithmetic::div_mod::lemma_mod_multiples_vanish(0x100 * q, low / 65536, 256);
    vstd::arithmetic::div_mod::lemma_mod_multiples_vanish(q, low / 16777216, 256);
    assert(le32(low) =~= le32(x));
}

/// Appends a 32 bit number.
pub fn push_le32(out: &mut Vec<u8>, x: u32)
    ensures
        final(out)@ == old(out)@ + le32(x as int),
{
    let ghost before = out@;
    out.push((x % 256) as u8);
    out.push((x / 256 % 256) as u8);
    out.push((x / 65536 % 256) as u8);
    out.push((x / 16777216 % 256) as u8);
    assert(out@ =~= before + le32(x as int));
}

/// Appends a 16 bit number.
pub fn push_le16(out: &mut Vec<u8>, x: u16)
    ensures
        final(out)@ == old(out)@ + le16(x as int),
{
    let ghost before = out@;
    out.push((x % 256) as u8);
    out.push((x / 256 % 256) as u8);
    assert(out@ =~= before + le16(x as int));
}

/// Reads a 32 bit number at a position.
pub fn read_le32(b: &[u8], at: usize) -> (x: u32)
    requires
        at + 4 <= b@.len(),
    ensures
        x == from_le32(b@.subrange(at as int, at + 4)),
{
    let ghost s = b@.subrange(at as int, at + 4);
    assert(s[0] == b@[at as int] && s[1] == b@[at + 1] && s[2] == b@[at + 2] && s[3] == b@[at + 3]);
    let n: usize = b.len();
    assert(at + 4 <= n);
    b[at] as u32 + 256 * b[at + 1] as u32 + 65536 * b[at + 2] as u32 + 16777216 * b[at + 3] as u32
}

// ---------------------------------------------------------------------------
// Header
// ---------------------------------------------------------------------------

/// The stream header: the magic bytes, the sample rate, one channel, and two
/// reserved bytes.
pub open spec fn header_bytes(rate: u32) -> Seq<u8> {
    MAGIC@ + le32(rate as int) + le16(1) + le16(0)
}

/// The sample rate in a stream header, if it begins with the magic bytes.
pub open spec fn header_rate(h: Seq<u8>) -> Option<u32> {
    if h.subrange(0, 4) == MAGIC@ {
        Some(from_le32(h.subrange(4, 8)) as u32)
    } else {
        None
    }
}

/// Writes the stream header.
pub fn stream_header(rate: u32) -> (r: Vec<u8>)
    ensures
        r@ == header_bytes(rate),
        r@.len() == HEADER_LEN,
{
    let mut out: Vec<u8> = Vec::new();
    for i in 0..4usize
        invariant
            out@ == MAGIC@.take(i as int),
    {
        out.push(MAGIC[i]);
    }
    assert(out@ =~= MAGIC@);
    push_le32(&mut out, rate);
    push_le16(&mut out, 1);
    push_le16(&mut out, 0);
    out
}

/// Reads the sample rate out of a stream header; nothing without the magic bytes.
pub fn read_header(h: &[u8]) -> (r: Option<u32>)
    requires
        h@.len() >= HEADER_LEN,
    ensures
        r == header_rate(h@),
{
    for i in 0..4usize
        invariant
            h@.len() >= HEADER_LEN,
            forall|j: int| 0 <= j < i ==> h@[j] == MAGIC@[j],
    {
        if h[i] != MAGIC[i] {
            assert(h@.subrange(0, 4)[i as int] != MAGIC@[i as int]);
            return None;
        }
    }
    assert(h@.subrange(0, 4) =~= MAGIC@);
    Some(read_le32(h, 4))
}

/// A client reads the rate that the server wrote into the header.
pub proof fn law_header_reads_back(rate: u32)
    ensures
        header_bytes(rate).len() == HEADER_LEN,
        header_rate(header_bytes(rate)) == Some(rate),
{
    let h = header_bytes(rate);
    assert(h.subrange(0, 4) =~= MAGIC@);
    assert(h.subrange(4, 8) =~= le32(rate as int));
    lemma_le32_reads_back(rate);
}

// ---------------------------------------------------------------------------
// Frames
// ---------------------------------------------------------------------------

/// Samples as bytes.
pub open spec fn pcm(samples: Seq<i16>) -> Seq<u8> {
    Seq::new(
        2 * samples.len(),
        |j: int|
            if j % 2 == 0 {
                (sample_bits(samples[j / 2]) % 256) as u8
            } else {
                (sample_bits(samples[j / 2]) / 256) as u8
            },
    )
}

/// Bytes as samples; a last odd byte is left out.
pub open spec fn pcm_samples(bytes: Seq<u8>) -> Seq<i16> {
    Seq::new(
        bytes.len() / 2,
        |i: int| from_sample_bits(bytes[2 * i] + 256 * bytes[2 * i + 1]),
    )
}

/// A frame: the number of samples, of which four bytes are written, then the
/// samples.
pub open spec fn frame_bytes(samples: Seq<i16>) -> Seq<u8> {
    le32(samples.len() as int) + pcm(samples)
}

/// The end frame: no samples, then the reason.
pub open spec fn end_bytes(reason: u32) -> Seq<u8> {
    le32(0) + le32(reason as int)
}

/// What the four bytes in front of a frame announce.
#[derive(Debug, Clone, Copy, PartialEq, Eq, Structural)]
pub enum FrameHead {
    /// The stream ends; a reason code follows.
    End,
    /// So many samples follow.
    Audio(u32),
    /// More samples than any sound frame has.
    Oversized,
}

/// What a frame's sample count announces.
pub open spec fn head_of(count: int) -> FrameHead {
    if count == 0 {
        FrameHead::End
    } else if count > MAX_FRAME_SAMPLES {
        FrameHead::Oversized
    } else {
        FrameHead::Audio(count as u32)
    }
}

/// One item of the stream body.
pub enum StreamItem {
    Audio(Seq<i16>),
    End(u32),
}

/// Reads the next item off the front of a stream body: the item and what stands
/// behind it. Nothing if it is incomplete or oversized.
pub open spec fn next_item(s: Seq<u8>) -> Option<(StreamItem, Seq<u8>)> {
    if s.len() < 4 {
        None
    } else {
        match head_of(from_le32(s.take(4))) {
            FrameHead::End => if s.len() < 8 {
                None
            } else {
                Some((StreamItem::End(from_le32(s.subrange(4, 8)) as u32), s.skip(8)))
            },
            FrameHead::Audio(n) => if s.len() < 4 + 2 * n {
                None
            } else {
                Some((StreamItem::Audio(pcm_samples(s.subrange(4, 4 + 2 * n))), s.skip(4 + 2 * n)))
            },
            FrameHead::Oversized => None,
        }
    }
}

/// Samples survive the way over bytes.
pub proof fn law_samples_read_back(samples: Seq<i16>)
    ensures
        pcm_samples(pcm(samples)) == samples,
{
    let b = pcm(samples);
    assert forall|i: int| 0 <= i < samples.len() implies pcm_samples(b)[i] == samples[i] by {
        assert((2 * i) / 2 == i && (2 * i) % 2 == 0);
        assert((2 * i + 1) / 2 == i && (2 * i + 1) % 2 == 1);
        let u = sample_bits(samples[i]);
        assert(0 <= u < 65536);
        assert(b[2 * i] == u % 256);
        assert(b[2 * i + 1] == u / 256);
    }
    assert(pcm_samples(b) =~= samples);
}

/// A frame of an acceptable length is read back whole, and the reader stands
/// exactly at what follows it.
pub proof fn law_frame_reads_back(samples: Seq<i16>, rest: Seq<u8>)
    requires
        0 < samples.len() <= MAX_FRAME_SAMPLES,
    ensures
        next_item(frame_bytes(samples) + rest) == Some((StreamItem::Audio(samples), rest)),
{
    let n = samples.len();
    let s = frame_bytes(samples) + rest;
    lemma_le32_reads_back(n as u32);
    assert(s.take(4) =~= le32(n as int));
    assert(s.subrange(4, 4 + 2 * n as int) =~= pcm(samples));
    assert(s.skip(4 + 2 * n as int) =~= rest);
    law_samples_read_back(samples);
}

/// The end frame is read back with its reason.
pub proof fn law_end_reads_back(reason: u32, rest: Seq<u8>)
    ensures
        next_item(end_bytes(reason) + rest) == Some((StreamItem::End(reason), rest)),
{
    let s = end_bytes(reason) + rest;
    lemma_le32_reads_back(0);
    lemma_le32_reads_back(reason);
    assert(s.take(4) =~= le32(0));
    assert(s.subrange(4, 8) =~= le32(reason as int));
    assert(s.skip(8) =~= rest);
}

/// A stream body: frames, then the end frame.
pub open spec fn body_bytes(frames: Seq<Seq<i16>>, reason: u32) -> Seq<u8>
    decreases frames.len(),
{
    if frames.len() == 0 {
        end_bytes(reason)
    } else {
        frame_bytes(frames[0]) + body_bytes(frames.drop_first(), reason)
    }
}

/// Reads a stream body to its end: all frames, and the reason.
pub open spec fn read_body(s: Seq<u8>) -> Option<(Seq<Seq<i16>>, u32)>
    decreases s.len(),
{
    match next_item(s) {
        Some((StreamItem::Audio(samples), rest)) => if rest.len() < s.len() {
            match read_body(rest) {
                Some((more, reason)) => Some((seq![samples] + more, reason)),
                None => None,
            }
        } else {
            None
        },
        Some((StreamItem::End(reason), _)) => Some((Seq::empty(), reason)),
        None => None,
    }
}

/// A client receives every frame that the server sends, in order, and then the
/// reason for the end.
pub proof fn law_stream_reads_back(frames: Seq<Seq<i16>>, reason: u32)
    requires
        forall|i: int| 0 <= i < frames.len() ==> 0 < (#[trigger] frames[i]).len()
            <= MAX_FRAME_SAMPLES,
    ensures
        read_body(body_bytes(frames, reason)) == Some((frames, reason)),
    decreases frames.len(),
{
    if frames.len() == 0 {
        law_end_reads_back(reason, Seq::empty());
        assert(end_bytes(reason) + Seq::<u8>::empty() =~= end_bytes(reason));
        assert(frames =~= Seq::<Seq<i16>>::empty());
    } else {
        let more = frames.drop_first();
        let rest = body_bytes(more, reason);
        assert forall|i: int| 0 <= i < more.len() implies 0 < (#[trigger] more[i]).len()
            <= MAX_FRAME_SAMPLES by {
            assert(more[i] == frames[i + 1]);
        }
        law_stream_reads_back(more, reason);
        law_frame_reads_back(frames[0], rest);
        assert(seq![frames[0]] + more =~= frames);
    }
}

/// Appends samples as bytes.
fn push_pcm(out: &mut Vec<u8>, samples: &[i16])
    ensures
        final(out)@ == old(out)@ + pcm(samples@),
{
    let ghost before = out@;
    for i in 0..samples.len()
        invariant
            out@ == before + pcm(samples@.take(i as int)),
    {
        let s: i16 = samples[i];
        let u: u16 = if s < 0 {
            (s as i32 + 65536) as u16
        } else {
            s as u16
        };
        push_le16(out, u);
        proof {
            let t = samples@.take(i as int);
            let more = samples@.take(i + 1);
            assert(u == sample_bits(s));
            assert forall|j: int| 0 <= j < pcm(more).len() implies pcm(more)[j] == (pcm(t) + le16(
                u as int,
            ))[j] by {
                if j < 2 * i {
                    assert(more[j / 2] == t[j / 2]);
                } else {
                    assert(j / 2 == i);
                }
            }
            assert(pcm(more) =~= pcm(t) + le16(u as int));
            assert(before + pcm(t) + le16(u as int) =~= before + (pcm(t) + le16(u as int)));
        }
    }
    assert(samples@.take(samples@.len() as int) =~= samples@);
}

/// Writes a frame.
pub fn encode_frame(samples: &[i16]) -> (r: Vec<u8>)
    ensures
        r@ == frame_bytes(samples@),
{
    let mut out: Vec<u8> = Vec::new();
    let count: u64 = samples.len() as u64;
    let low: u32 = (count % 0x1_0000_0000) as u32;
    proof {
        lemma_low_bits(count as int);
    }
    push_le32(&mut out, low);
    push_pcm(&mut out, samples);
    assert(out@ =~= frame_bytes(samples@));
    out
}

/// Writes an end frame.
pub fn end_frame(reason: u32) -> (r: Vec<u8>)
    ensures
        r@ == end_bytes(reason),
{
    let mut out: Vec<u8> = Vec::new();
    push_le32(&mut out, 0);
    push_le32(&mut out, reason);
    assert(out@ =~= end_bytes(reason));
    out
}

/// Reads the four bytes in front of a frame.
pub fn frame_head(len: &[u8]) -> (r: FrameHead)
    requires
        len@.len() == 4,
    ensures
        r == head_of(from_le32(len@)),
{
    assert(len@.subrange(0, 4) =~= len@);
    let n: u32 = read_le32(len, 0);
    if n == 0 {
        FrameHead::End
    } else if n > MAX_FRAME_SAMPLES {
        FrameHead::Oversized
    } else {
        FrameHead::Audio(n)
    }
}

/// Reads the samples of a frame.
pub fn decode_pcm(bytes: &[u8]) -> (r: Vec<i16>)
    ensures
        r@ == pcm_samples(bytes@),
{
    let total: usize = bytes.len();
    let n: usize = total / 2;
    let mut out: Vec<i16> = Vec::new();
    for i in 0..n
        invariant
            total == bytes@.len(),
            n == total / 2,
            out@ == pcm_samples(bytes@).take(i as int),
    {
        let u: u32 = bytes[2 * i] as u32 + 256 * bytes[2 * i + 1] as u32;
        let s: i16 = if u >= 32768 {
            (u as i32 - 65536) as i16
        } else {
            u as i16
        };
        out.push(s);
        assert(out@ =~= pcm_samples(bytes@).take(i + 1));
    }
    assert(pcm_samples(bytes@).take(n as int) =~= pcm_samples(bytes@));
    out
}

// ---------------------------------------------------------------------------
// What stands in the bytes
// ---------------------------------------------------------------------------

/// Numbers are little endian: each byte counts 256 times as much as the one before
/// it.
pub proof fn law_numbers_are_little_endian(x: u32, y: u16, s: i16)
    ensures
        ({
            let b = le32(x as int);
            b.len() == 4 && b[0] + 256 * (b[1] + 256 * (b[2] + 256 * b[3])) == x
        }),
        ({
            let b = le16(y as int);
            b.len() == 2 && b[0] + 256 * b[1] == y
        }),
        forall|b: Seq<u8>|
            b.len() == 4 ==> #[trigger] from_le32(b) == b[0] + 256 * (b[1] + 256 * (b[2] + 256
                * b[3])),
        s >= 0 ==> sample_bits(s) == s,
        s < 0 ==> sample_bits(s) == 65536 + s,
        from_sample_bits(sample_bits(s)) == s,
{
}

/// A header is `MSY1`, the rate, one channel and two bytes that are kept free.
/// Anything that does not begin with `MSY1` is no header.
pub proof fn law_header_begins_with_the_magic(rate: u32, h: Seq<u8>)
    requires
        h.len() >= 12,
    ensures
        header_bytes(rate).take(4) == seq![77u8, 83u8, 89u8, 49u8],
        header_bytes(rate).subrange(4, 8) == le32(rate as int),
        header_bytes(rate).skip(8) == seq![1u8, 0u8, 0u8, 0u8],
        header_rate(h) is Some <==> h[0] == 77 && h[1] == 83 && h[2] == 89 && h[3] == 49,
        header_rate(h) matches Some(r) ==> r == h[4] + 256 * h[5] + 65536 * h[6] + 16777216 * h[7],
{
    let b = header_bytes(rate);
    assert(b.take(4) =~= seq![77u8, 83u8, 89u8, 49u8]);
    assert(b.subrange(4, 8) =~= le32(rate as int));
    assert(b.skip(8) =~= seq![1u8, 0u8, 0u8, 0u8]);
    let m = h.subrange(0, 4);
    if h[0] == 77 && h[1] == 83 && h[2] == 89 && h[3] == 49 {
        assert(m =~= MAGIC@);
    }
    if m == MAGIC@ {
        assert(m[0] == 77 && m[1] == 83 && m[2] == 89 && m[3] == 49);
    }
}

/// The count in front of a frame says what follows: none ends the stream, up to
/// 1048576 are samples, and more are refused.
pub proof fn law_frame_counts_are_judged(count: u32)
    ensures
        count == 0 <==> head_of(count as int) == FrameHead::End,
        1 <= count <= 1048576 <==> head_of(count as int) == FrameHead::Audio(count),
        count > 1048576 <==> head_of(count as int) == FrameHead::Oversized,
{
}

/// A frame is the count of its samples, then each sample in two bytes, the low one
/// first; the end frame is a count of none, then the reason.
pub proof fn law_frames_hold_their_samples(samples: Seq<i16>, i: int, reason: u32)
    requires
        0 <= i < samples.len(),
    ensures
        frame_bytes(samples).len() == 4 + 2 * samples.len(),
        frame_bytes(samples).take(4) == le32(samples.len() as int),
        ({
            let b = frame_bytes(samples);
            let u = b[4 + 2 * i] + 256 * b[5 + 2 * i];
            (samples[i] >= 0 ==> u == samples[i]) && (samples[i] < 0 ==> u == 65536 + samples[i])
        }),
        end_bytes(reason) == seq![0u8, 0u8, 0u8, 0u8] + le32(reason as int),
        forall|bytes: Seq<u8>| #[trigger] pcm_samples(bytes).len() == bytes.len() / 2,
{
    let b = frame_bytes(samples);
    assert(b.take(4) =~= le32(samples.len() as int));
    assert((2 * i) / 2 == i && (2 * i) % 2 == 0);
    assert((2 * i + 1) / 2 == i && (2 * i + 1) % 2 == 1);
    assert(b[4 + 2 * i] == pcm(samples)[2 * i]);
    assert(b[5 + 2 * i] == pcm(samples)[2 * i + 1]);
    assert(le32(0) =~= seq![0u8, 0u8, 0u8, 0u8]);
}

} // verus!
