use std::f64::consts::TAU;

use micsync::adpcm::ImaAdpcm;

/// Both ends start from nothing and stay in step over many frames.
#[test]
fn adpcm_roundtrip_tracks_sine_across_frames() {
    let n = 9600;
    let src: Vec<i16> = (0..n)
        .map(|i| ((TAU * 440.0 * i as f64 / 48000.0).sin() * 0.5 * i16::MAX as f64) as i16)
        .collect();
    let mut enc = ImaAdpcm::new();
    let mut dec = ImaAdpcm::new();
    let mut bytes = Vec::new();
    let mut out: Vec<i16> = Vec::new();
    for frame in src.chunks(480) {
        bytes.clear();
        enc.encode_into(frame, &mut bytes);
        assert_eq!(bytes.len(), frame.len().div_ceil(2), "half a byte per sample");
        dec.decode_into(&bytes, frame.len(), &mut out);
    }
    assert_eq!(out.len(), n);
    let errs: Vec<f64> = (240..n)
        .map(|i| {
            (out[i] as f32 / i16::MAX as f32) as f64 - src[i] as f64 / i16::MAX as f64
        })
        .collect();
    let rms = (errs.iter().map(|e| e * e).sum::<f64>() / errs.len() as f64).sqrt();
    assert!(rms < 0.02, "error too large: {rms}");
}

#[test]
fn adpcm_handles_odd_frame_length() {
    let mut enc = ImaAdpcm::new();
    let mut dec = ImaAdpcm::new();
    let mut bytes = Vec::new();
    enc.encode_into(&[100, -200, 300], &mut bytes);
    assert_eq!(bytes.len(), 2);
    let mut out = Vec::new();
    dec.decode_into(&bytes, 3, &mut out);
    assert_eq!(out.len(), 3);
}

#[test]
fn adpcm_known_vector_locks_wire_format() {
    let samples: [i16; 10] = [0, 1000, 3000, 6000, 10000, 6000, 0, -6000, -10000, -3000];
    let mut enc = ImaAdpcm::new();
    let mut bytes = Vec::new();
    enc.encode_into(&samples, &mut bytes);
    assert_eq!(bytes, vec![0x70u8, 0x77, 0x77, 0xFE, 0x0F]);
}

#[test]
fn one_frame_or_two_make_no_difference() {
    let samples: Vec<i16> = (0..64).map(|i| (i * 401 % 9000 - 4500) as i16).collect();
    let mut whole = ImaAdpcm::new();
    let mut split = ImaAdpcm::new();
    let mut a = Vec::new();
    let mut b = Vec::new();
    whole.encode_into(&samples, &mut a);
    split.encode_into(&samples[..20], &mut b);
    split.encode_into(&samples[20..], &mut b);
    assert_eq!(a, b);
}

#[test]
fn decoded_samples_stay_in_range() {
    // The largest steps upwards run into the upper limit, and downwards into the lower.
    let mut dec = ImaAdpcm::new();
    let mut out = Vec::new();
    dec.decode_into(&[0x77; 100], 200, &mut out);
    assert_eq!(out[199], i16::MAX);
    out.clear();
    dec.decode_into(&[0xFF; 100], 200, &mut out);
    assert_eq!(out[199], i16::MIN);
}

#[test]
fn first_codes_are_exact() {
    // From nothing the step is seven, and after code four it is nine.
    let mut enc = ImaAdpcm::new();
    assert_eq!(enc.encode_sample(7), 4);
    let mut dec = ImaAdpcm::new();
    assert_eq!(dec.advance(4), 7);
    assert_eq!(dec.advance(12), -3);
}
