use vstd::prelude::*;

verus! {

use crate::errors::SpekError;

/// Samples in one analysis window.
pub const WINDOW_SIZE: usize = 2048;

/// Samples between the starts of consecutive frames (75% overlap).
pub const HOP_SIZE: usize = 512;

/// Frequency bins kept per frame: the Nyquist-limited half of the window.
pub const NUM_FREQ_BINS: usize = 1024;

/// Fixed-point scale of a stored magnitude: the integer `MAG_ONE` stands for
/// a spectral magnitude of 1.0. Callers quantize each magnitude to
/// `floor(magnitude * MAG_ONE)` before handing the grid to the library.
pub const MAG_ONE: u64 = 0x100_0000_0000; // 2^40

/// Exclusive upper bound on a stored magnitude (2^53 fixed-point units,
/// i.e. a magnitude of 2^13): far above anything a 2048-sample window of
/// roughly unit-range samples can produce, and small enough that every
/// sum and product the pipeline forms fits in 128 bits.
pub const MAX_MAGNITUDE: u64 = 0x20_0000_0000_0000; // 2^53

/// Number of analysis frames for a buffer of `n` samples, `n >= WINDOW_SIZE`:
/// `floor((n - WINDOW_SIZE) / HOP_SIZE) + 1`.
pub open spec fn spec_num_time_frames(n: int) -> int {
    (n - WINDOW_SIZE) / (HOP_SIZE as int) + 1
}

/// Frame-count law: one frame at offset zero, plus one per whole hop that
/// still leaves a full window inside the buffer.
pub fn num_time_frames(num_samples: usize) -> (r: usize)
    requires
        num_samples >= WINDOW_SIZE,
    ensures
        r == spec_num_time_frames(num_samples as int),
        1 <= r <= num_samples,
{
    proof {
        vstd::arithmetic::div_mod::lemma_div_pos_is_pos(
            num_samples - WINDOW_SIZE,
            HOP_SIZE as int,
        );
        vstd::arithmetic::div_mod::lemma_div_nonincreasing(
            num_samples - WINDOW_SIZE,
            HOP_SIZE as int,
        );
    }
    (num_samples - WINDOW_SIZE) / HOP_SIZE + 1
}

/// The time-frequency grid a sample buffer will analyze into, or the reason
/// the buffer is refused. `Ok((frames, bins))` exactly when at least one
/// whole analysis window fits.
pub fn stft_layout(num_samples: usize) -> (r: Result<(usize, usize), SpekError>)
    ensures
        num_samples >= WINDOW_SIZE ==> r == Ok::<(usize, usize), SpekError>(
            (spec_num_time_frames(num_samples as int) as usize, NUM_FREQ_BINS),
        ),
        num_samples < WINDOW_SIZE ==> r == Err::<(usize, usize), SpekError>(
            SpekError::InsufficientSamples { required: WINDOW_SIZE, actual: num_samples },
        ),
{
    if num_samples < WINDOW_SIZE {
        Err(SpekError::InsufficientSamples { required: WINDOW_SIZE, actual: num_samples })
    } else {
        Ok((num_time_frames(num_samples), NUM_FREQ_BINS))
    }
}

/// Sample range `[start, end)` of one analysis frame: frame `i` starts at
/// offset `i * HOP_SIZE` and always lies wholly inside the buffer.
pub fn frame_range(frame_idx: usize, num_samples: usize) -> (r: (usize, usize))
    requires
        num_samples >= WINDOW_SIZE,
        frame_idx < spec_num_time_frames(num_samples as int),
    ensures
        r.0 == frame_idx * HOP_SIZE,
        r.1 == r.0 + WINDOW_SIZE,
        r.1 <= num_samples,
{
    proof {
        let n = num_samples as int;
        let q = (n - WINDOW_SIZE) / (HOP_SIZE as int);
        vstd::arithmetic::div_mod::lemma_fundamental_div_mod(n - WINDOW_SIZE, HOP_SIZE as int);
        vstd::arithmetic::div_mod::lemma_mod_bound(n - WINDOW_SIZE, HOP_SIZE as int);
        vstd::arithmetic::mul::lemma_mul_inequality(frame_idx as int, q, HOP_SIZE as int);
        vstd::arithmetic::mul::lemma_mul_is_commutative(q, HOP_SIZE as int);
    }
    let start = frame_idx * HOP_SIZE;
    (start, start + WINDOW_SIZE)
}

/// A completed short-time spectral analysis: one row of fixed-point
/// magnitudes per frame, in time order (row `i` covers the samples starting
/// at offset `i * HOP_SIZE`). Immutable once built; every downstream stage
/// only reads it.
pub struct StftResult {
    /// `num_time_frames` rows of `num_freq_bins` magnitudes each.
    pub magnitudes: Vec<Vec<u64>>,
    pub num_time_frames: usize,
    pub num_freq_bins: usize,
}

impl StftResult {
    /// The shape every stage relies on: a non-empty rectangular grid of
    /// `NUM_FREQ_BINS`-wide rows whose entries stay below `MAX_MAGNITUDE`.
    pub open spec fn well_formed(&self) -> bool {
        &&& self.num_time_frames == self.magnitudes@.len()
        &&& self.num_time_frames >= 1
        &&& self.num_freq_bins == NUM_FREQ_BINS
        &&& forall|i: int|
            0 <= i < self.magnitudes@.len() ==> (#[trigger] self.magnitudes@[i])@.len()
                == NUM_FREQ_BINS
        &&& forall|i: int, j: int|
            0 <= i < self.magnitudes@.len() && 0 <= j < self.magnitudes@[i]@.len()
                ==> #[trigger] self.magnitudes@[i]@[j] < MAX_MAGNITUDE
    }

    /// Checked constructor: accepts exactly the grids that are well formed.
    pub fn new(magnitudes: Vec<Vec<u64>>) -> (r: Option<StftResult>)
        ensures
            match r {
                Some(s) => {
                    &&& s.well_formed()
                    &&& s.magnitudes == magnitudes
                    &&& s.num_time_frames == magnitudes@.len()
                    &&& s.num_freq_bins == NUM_FREQ_BINS
                },
                None => !{
                    &&& magnitudes@.len() >= 1
                    &&& forall|i: int|
                        0 <= i < magnitudes@.len() ==> (#[trigger] magnitudes@[i])@.len()
                            == NUM_FREQ_BINS
                    &&& forall|i: int, j: int|
                        0 <= i < magnitudes@.len() && 0 <= j < magnitudes@[i]@.len()
                            ==> #[trigger] magnitudes@[i]@[j] < MAX_MAGNITUDE
                },
            },
    {
        if magnitudes.len() == 0 {
            return None;
        }
        let mut i: usize = 0;
        while i < magnitudes.len()
            invariant
                i <= magnitudes@.len(),
                forall|k: int|
                    0 <= k < i ==> (#[trigger] magnitudes@[k])@.len() == NUM_FREQ_BINS,
                forall|k: int, j: int|
                    0 <= k < i && 0 <= j < magnitudes@[k]@.len()
                        ==> #[trigger] magnitudes@[k]@[j] < MAX_MAGNITUDE,
            decreases magnitudes@.len() - i,
        {
            let row = &magnitudes[i];
            if row.len() != NUM_FREQ_BINS {
                return None;
            }
            let mut j: usize = 0;
            while j < row.len()
                invariant
                    j <= row@.len(),
                    row@ == magnitudes@[i as int]@,
                    i < magnitudes@.len(),
                    forall|t: int| 0 <= t < j ==> #[trigger] row@[t] < MAX_MAGNITUDE,
                decreases row@.len() - j,
            {
                if row[j] >= MAX_MAGNITUDE {
                    return None;
                }
                j += 1;
            }
            i += 1;
        }
        let num_time_frames = magnitudes.len();
        Some(StftResult { magnitudes, num_time_frames, num_freq_bins: NUM_FREQ_BINS })
    }

    /// The single global peak the dynamic-range normalizer is derived from:
    /// the maximum magnitude over the whole grid, an order-independent
    /// reduction.
    pub fn global_peak(&self) -> (r: u64)
        requires
            self.well_formed(),
        ensures
            forall|i: int, j: int|
                0 <= i < self.magnitudes@.len() && 0 <= j < self.magnitudes@[i]@.len()
                    ==> #[trigger] self.magnitudes@[i]@[j] <= r,
            exists|i: int, j: int|
                0 <= i < self.magnitudes@.len() && 0 <= j < self.magnitudes@[i]@.len()
                    && #[trigger] self.magnitudes@[i]@[j] == r,
    {
        let mut best: u64 = self.magnitudes[0][0];
        assert(self.magnitudes@[0]@[0] == best);
        let mut i: usize = 0;
        while i < self.magnitudes.len()
            invariant
                self.well_formed(),
                i <= self.magnitudes@.len(),
                forall|k: int, j: int|
                    0 <= k < i && 0 <= j < self.magnitudes@[k]@.len()
                        ==> #[trigger] self.magnitudes@[k]@[j] <= best,
                exists|k: int, j: int|
                    0 <= k < self.magnitudes@.len() && 0 <= j < self.magnitudes@[k]@.len()
                        && #[trigger] self.magnitudes@[k]@[j] == best,
            decreases self.magnitudes@.len() - i,
        {
            let row = &self.magnitudes[i];
            let mut j: usize = 0;
            while j < row.len()
                invariant
                    self.well_formed(),
                    i < self.magnitudes@.len(),
                    row@ == self.magnitudes@[i as int]@,
                    j <= row@.len(),
                    forall|k: int, t: int|
                        0 <= k < i && 0 <= t < self.magnitudes@[k]@.len()
                            ==> #[trigger] self.magnitudes@[k]@[t] <= best,
                    forall|t: int| 0 <= t < j ==> #[trigger] row@[t] <= best,
                    exists|k: int, t: int|
                        0 <= k < self.magnitudes@.len() && 0 <= t < self.magnitudes@[k]@.len()
                            && #[trigger] self.magnitudes@[k]@[t] == best,
                decreases row@.len() - j,
            {
                if row[j] > best {
                    best = row[j];
                    assert(self.magnitudes@[i as int]@[j as int] == best);
                }
                j += 1;
            }
            i += 1;
        }
        best
    }
}

} // verus!
