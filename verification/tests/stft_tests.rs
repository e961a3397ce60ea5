use spek_core::errors::SpekError;
use spek_core::stft::{
    frame_range, num_time_frames, stft_layout, StftResult, HOP_SIZE, MAX_MAGNITUDE, NUM_FREQ_BINS,
    WINDOW_SIZE,
};

fn zero_grid(frames: usize) -> Vec<Vec<u64>> {
    vec![vec![0u64; NUM_FREQ_BINS]; frames]
}

#[test]
fn frame_count_law_minimum() {
    assert_eq!(num_time_frames(2048), 1);
    assert_eq!(stft_layout(2048), Ok((1, 1024)));
}

#[test]
fn frame_count_law_formula() {
    for n in [2048usize, 2049, 2559, 2560, 4096, 44100, 65536, 1_000_000] {
        let expected = (n - 2048) / 512 + 1;
        assert_eq!(num_time_frames(n), expected);
        assert_eq!(stft_layout(n), Ok((expected, 1024)));
    }
}

#[test]
fn insufficient_samples_rejected() {
    assert_eq!(
        stft_layout(2047),
        Err(SpekError::InsufficientSamples { required: 2048, actual: 2047 })
    );
    assert_eq!(
        stft_layout(0),
        Err(SpekError::InsufficientSamples { required: 2048, actual: 0 })
    );
}

#[test]
fn frame_ranges_cover_hops() {
    let n = 4096usize;
    let frames = num_time_frames(n);
    assert_eq!(frames, 5);
    for i in 0..frames {
        let (start, end) = frame_range(i, n);
        assert_eq!(start, i * HOP_SIZE);
        assert_eq!(end, start + WINDOW_SIZE);
        assert!(end <= n);
    }
}

#[test]
fn stft_constructor_accepts_well_formed() {
    let s = StftResult::new(zero_grid(3)).unwrap();
    assert_eq!(s.num_time_frames, 3);
    assert_eq!(s.num_freq_bins, 1024);
}

#[test]
fn stft_constructor_rejects_bad_grids() {
    assert!(StftResult::new(Vec::new()).is_none());
    let mut ragged = zero_grid(2);
    ragged[1].pop();
    assert!(StftResult::new(ragged).is_none());
    let mut too_big = zero_grid(2);
    too_big[0][5] = MAX_MAGNITUDE;
    assert!(StftResult::new(too_big).is_none());
}

#[test]
fn global_peak_is_the_maximum() {
    let mut grid = zero_grid(3);
    grid[1][100] = 7;
    grid[2][1023] = 40;
    grid[0][0] = 12;
    let s = StftResult::new(grid).unwrap();
    assert_eq!(s.global_peak(), 40);
}

#[test]
fn global_peak_of_silence_is_zero() {
    let s = StftResult::new(zero_grid(4)).unwrap();
    assert_eq!(s.global_peak(), 0);
}
