use spek_core::rolloff::{compute_spectral_rolloff, frame_rolloff_bin};
use spek_core::stft::{StftResult, NUM_FREQ_BINS};

fn grid_of(frames: Vec<Vec<u64>>) -> StftResult {
    StftResult::new(frames).unwrap()
}

#[test]
fn silent_buffer_rolls_off_at_zero() {
    let stft = grid_of(vec![vec![0u64; NUM_FREQ_BINS]; 5]);
    let series = compute_spectral_rolloff(&stft, 44100, 32);
    assert_eq!(series.len(), 32);
    for v in series {
        assert_eq!(v, 0);
    }
}

#[test]
fn near_silent_frame_takes_the_sentinel() {
    // Each magnitude of 1000 fixed-point units is about 1e-9, so the
    // frame's total energy sits far below the 1e-10 silence floor.
    let row = vec![1000u64; NUM_FREQ_BINS];
    assert_eq!(frame_rolloff_bin(&row), 0);
}

#[test]
fn uniform_energy_crosses_at_85_percent() {
    // Equal energy in every bin: the first bin k with
    // (k + 1) / 1024 >= 0.85 is k = 870.
    let row = vec![1u64 << 20; NUM_FREQ_BINS];
    assert_eq!(frame_rolloff_bin(&row), 870);
}

#[test]
fn single_bin_concentrates_all_energy() {
    let mut row = vec![0u64; NUM_FREQ_BINS];
    row[100] = 1 << 30;
    assert_eq!(frame_rolloff_bin(&row), 100);
}

#[test]
fn rolloff_frequency_is_exact_millihertz() {
    let mut frame = vec![0u64; NUM_FREQ_BINS];
    frame[100] = 1 << 30;
    let stft = grid_of(vec![frame]);
    let series = compute_spectral_rolloff(&stft, 44100, 4);
    // 100 / 1024 of the 22050 Hz nyquist, floored to millihertz.
    let expected = (100u64 * 44100 * 500) / 1024;
    assert_eq!(expected, 2_153_320);
    for v in series {
        assert_eq!(v, expected);
    }
}

#[test]
fn rolloff_stays_within_nyquist() {
    let mut rows = Vec::new();
    for i in 0..6u64 {
        let mut row = vec![3u64 << 20; NUM_FREQ_BINS];
        row[(i as usize) * 150] = 9 << 30;
        rows.push(row);
    }
    let stft = grid_of(rows);
    let series = compute_spectral_rolloff(&stft, 48000, 64);
    let nyquist_mhz = 48000u64 * 500;
    for v in series {
        assert!(v <= nyquist_mhz);
    }
}

#[test]
fn rolloff_bin_ignores_gain() {
    // The 85% threshold is relative, so scaling a frame well above the
    // silence floor moves nothing.
    let quiet = vec![1u64 << 20; NUM_FREQ_BINS];
    let loud: Vec<u64> = quiet.iter().map(|m| m * 3).collect();
    assert_eq!(frame_rolloff_bin(&quiet), frame_rolloff_bin(&loud));
    let mut one_quiet = vec![0u64; NUM_FREQ_BINS];
    one_quiet[300] = 1 << 25;
    let one_loud: Vec<u64> = one_quiet.iter().map(|m| m * 5).collect();
    assert_eq!(frame_rolloff_bin(&one_quiet), 300);
    assert_eq!(frame_rolloff_bin(&one_loud), 300);
}

#[test]
fn columns_resample_by_nearest_frame() {
    // Two frames: a silent one, then one with all energy in bin 512.
    let mut loud = vec![0u64; NUM_FREQ_BINS];
    loud[512] = 1 << 30;
    let stft = grid_of(vec![vec![0u64; NUM_FREQ_BINS], loud]);
    let series = compute_spectral_rolloff(&stft, 44100, 4);
    let loud_mhz = (512u64 * 44100 * 500) / 1024;
    assert_eq!(series, vec![0, 0, loud_mhz, loud_mhz]);
}
