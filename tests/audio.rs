use voicereader::job::audio_chunk_base64;
use voicereader::pcm::{
    apply_gain, bytes_to_pcm_i16, bytes_to_pcm_i16_drain_all, pcm_i16_to_le_bytes,
    quantize_sample, resample_pcm_by_rate,
};
use voicereader::tempo::{
    decimal_string, decompose_tempo_factors, join_frames, six_places_string, tempo_process_args,
    TempoFrameBuffer,
};

#[test]
fn samples_to_le_bytes() {
    assert_eq!(pcm_i16_to_le_bytes(&[1, -1, 256, i16::MIN]), vec![1, 0, 255, 255, 0, 1, 0, 128]);
}

#[test]
fn le_bytes_to_samples_drop_odd_byte() {
    assert_eq!(bytes_to_pcm_i16(&[1, 0, 255, 255, 7]), vec![1, -1]);
}

#[test]
fn bytes_round_trip() {
    let s: Vec<i16> = vec![0, 1, -1, 32767, -32768, 1234, -4321];
    assert_eq!(bytes_to_pcm_i16(&pcm_i16_to_le_bytes(&s)), s);
}

#[test]
fn drain_all_keeps_odd_byte() {
    let mut b = vec![2, 0, 3, 0, 9];
    assert_eq!(bytes_to_pcm_i16_drain_all(&mut b), vec![2, 3]);
    assert_eq!(b, vec![9]);
    let mut e: Vec<u8> = vec![5];
    assert!(bytes_to_pcm_i16_drain_all(&mut e).is_empty());
    assert_eq!(e, vec![5]);
}

#[test]
fn quantize_rounds_half_away_from_zero() {
    assert_eq!(quantize_sample(500_000, 1000), 16384);
    assert_eq!(quantize_sample(-500_000, 1000), -16384);
    assert_eq!(quantize_sample(1_000_000, 1000), 32767);
    assert_eq!(quantize_sample(250_000, 2000), 16384);
}

#[test]
fn quantize_clamps_to_full_scale() {
    assert_eq!(quantize_sample(i32::MAX, 2000), 32767);
    assert_eq!(quantize_sample(i32::MIN, 2000), -32767);
    assert_eq!(quantize_sample(3_000_000, 1000), 32767);
}

#[test]
fn zero_volume_is_silence() {
    let r = apply_gain(&[1_000_000, -700_000, 42, i32::MAX], 0);
    assert_eq!(r, vec![0, 0, 0, 0]);
}

#[test]
fn gain_output_stays_within_full_scale() {
    let samples: Vec<i32> = vec![i32::MIN, -2_000_000, -1, 0, 1, 999_999, 5_000_000, i32::MAX];
    for v in [0u32, 500, 1000, 1500, 2000, 9000] {
        for q in apply_gain(&samples, v) {
            assert!((-32767..=32767).contains(&q));
        }
    }
}

#[test]
fn volume_above_two_is_clamped() {
    assert_eq!(apply_gain(&[100_000], 9000), apply_gain(&[100_000], 2000));
    assert_eq!(apply_gain(&[100_000], 9000), vec![6553]);
}

#[test]
fn unit_rate_resample_is_identity() {
    let x: Vec<i16> = vec![5, -3, 100, 7];
    assert_eq!(resample_pcm_by_rate(&x, 1000, 1000), x);
    assert_eq!(resample_pcm_by_rate(&x, 7, 7), x);
    assert!(resample_pcm_by_rate(&[], 2, 1).is_empty());
}

#[test]
fn resample_speeds_up_by_interpolation() {
    assert_eq!(resample_pcm_by_rate(&[0, 10, 20, 30], 2, 1), vec![0, 20]);
    assert_eq!(resample_pcm_by_rate(&[0, 10], 1, 2), vec![0, 5, 10, 10]);
    assert_eq!(resample_pcm_by_rate(&[0, 10, 20], 3, 2), vec![0, 15]);
}

#[test]
fn resample_keeps_one_sample_at_least() {
    assert_eq!(resample_pcm_by_rate(&[9], 4, 1), vec![9]);
}

#[test]
fn resample_round_trip_length() {
    let x: Vec<i16> = (0..1001).map(|i| (i % 300) as i16).collect();
    for (num, den) in [(1u32, 4u32), (1, 2), (3, 4), (2, 3), (999, 1000), (1, 1), (3, 2), (2, 1), (7, 4)] {
        let y = resample_pcm_by_rate(&x, num, den);
        let z = resample_pcm_by_rate(&y, den, num);
        assert!((z.len() as i64 - x.len() as i64).abs() <= 1);
    }
}

#[test]
fn tempo_two_decomposes_into_three_steps() {
    assert_eq!(decompose_tempo_factors(2000), vec![1_259_921u128; 3]);
}

#[test]
fn tempo_one_is_a_single_unit_step() {
    assert_eq!(decompose_tempo_factors(1000), vec![1_000_000u128]);
}

#[test]
fn tempo_slow_down_is_symmetric() {
    assert_eq!(decompose_tempo_factors(500), vec![793_700u128; 3]);
    assert_eq!(decompose_tempo_factors(250).len(), 5);
    assert_eq!(decompose_tempo_factors(4000).len(), 5);
    assert_eq!(decompose_tempo_factors(1350), vec![1_350_000u128]);
}

#[test]
fn decimal_forms() {
    assert_eq!(decimal_string(0), "0");
    assert_eq!(decimal_string(24000), "24000");
    assert_eq!(six_places_string(1_259_921), "1.259921");
    assert_eq!(six_places_string(793_700), "0.793700");
    assert_eq!(six_places_string(2_000_005), "2.000005");
}

#[test]
fn tempo_process_arguments() {
    let a = tempo_process_args(24000, &vec![1_259_921, 1_259_921]);
    let expect: Vec<&str> = vec![
        "-q", "-t", "raw", "-r", "24000", "-e", "signed-integer", "-b", "16", "-c", "1", "-L", "-",
        "-t", "raw", "-e", "signed-integer", "-b", "16", "-c", "1", "-L", "-", "tempo", "1.259921",
        "tempo", "1.259921",
    ];
    assert_eq!(a, expect);
}

#[test]
fn frame_size_follows_rate() {
    assert_eq!(TempoFrameBuffer::new(1500).frame_samples(), 8192);
    assert_eq!(TempoFrameBuffer::new(2000).frame_samples(), 16384);
    assert_eq!(TempoFrameBuffer::new(3500).frame_samples(), 24576);
}

#[test]
fn frames_come_out_whole() {
    let mut b = TempoFrameBuffer::new(1500);
    let bytes: Vec<u8> = (0..(2 * 8192 + 5) * 2).map(|i| (i % 251) as u8).collect();
    b.push_output(&bytes[..100]);
    assert!(b.take_ready_frames().is_empty());
    b.push_output(&bytes[100..]);
    let frames = b.take_ready_frames();
    assert_eq!(frames.len(), 2);
    assert_eq!(frames[0], bytes_to_pcm_i16(&bytes[..16384]));
    assert_eq!(frames[1], bytes_to_pcm_i16(&bytes[16384..32768]));
    let tail = b.finish();
    assert_eq!(tail, vec![bytes_to_pcm_i16(&bytes[32768..])]);
    assert!(b.finish().is_empty());
}

#[test]
fn finish_emits_short_tail_with_odd_byte_left() {
    let mut b = TempoFrameBuffer::new(1000);
    b.push_output(&[1, 0, 2, 0, 3]);
    let frames = b.finish();
    assert_eq!(frames, vec![vec![1i16, 2]]);
}

#[test]
fn abort_drops_buffered_bytes() {
    let mut b = TempoFrameBuffer::new(1000);
    b.push_output(&vec![1u8; 20000]);
    b.abort();
    assert!(b.finish().is_empty());
}

#[test]
fn frames_join_in_order() {
    assert_eq!(join_frames(&vec![vec![1i16, 2], vec![], vec![3]]), vec![1, 2, 3]);
}

#[test]
fn audio_chunk_is_base64_of_le_bytes() {
    assert_eq!(audio_chunk_base64(&[1, -1]), "AQD//w==");
    assert_eq!(audio_chunk_base64(&[]), "");
    assert_eq!(audio_chunk_base64(&[0x4241, 0x43]), "QUJDAA==");
    assert_eq!(audio_chunk_base64(&[0x4241, 0x4443, 0x4645]), "QUJDREVG");
    assert_eq!(audio_chunk_base64(&[-1, 0x3f3e]), "//8+Pw==");
}

#[test]
fn tempo_decomposes_any_positive_rate() {
    assert!(decompose_tempo_factors(0).is_empty());
    assert_eq!(decompose_tempo_factors(100), vec![749_894u128; 8]);
    assert_eq!(decompose_tempo_factors(1), vec![749_894u128; 24]);
    assert_eq!(decompose_tempo_factors(250), vec![757_858u128; 5]);
    assert_eq!(decompose_tempo_factors(4000), vec![1_319_507u128; 5]);
    assert_eq!(decompose_tempo_factors(u32::MAX), vec![1_349_143u128; 51]);
}
