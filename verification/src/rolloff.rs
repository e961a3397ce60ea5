use vstd::prelude::*;

verus! {

use crate::stft::{StftResult, MAX_MAGNITUDE, NUM_FREQ_BINS};

/// Near-silence floor for one frame's total energy, in squared fixed-point
/// magnitude units: `ceil(1e-10 * MAG_ONE * MAG_ONE)`, i.e. a total energy
/// of 1e-10. A frame below it gets the documented sentinel rolloff of 0 Hz
/// instead of a scan result.
pub const SILENCE_ENERGY: u128 = 120892581961463;

/// Fraction of a frame's energy the rolloff bin must accumulate, in
/// hundredths: 85 of 100.
pub const ROLLOFF_PERCENT: u128 = 85;

/// Total energy of a frame: the sum of its squared magnitudes.
pub open spec fn spec_energy(row: Seq<u64>) -> int
    decreases row.len(),
{
    if row.len() == 0 {
        0
    } else {
        spec_energy(row.drop_last()) + row.last() * row.last()
    }
}

/// Has the cumulative energy through bin `k` reached 85% of the total?
pub open spec fn spec_crossed(row: Seq<u64>, k: int) -> bool {
    100 * spec_energy(row.take(k + 1)) >= (ROLLOFF_PERCENT as int) * spec_energy(row)
}

/// The lowest bin whose cumulative energy reaches the threshold, scanning in
/// increasing-frequency order from `k`; `row.len()` if no bin does.
pub open spec fn spec_first_crossing(row: Seq<u64>, k: int) -> int
    decreases row.len() - k,
{
    if k < 0 || k >= row.len() {
        row.len() as int
    } else if spec_crossed(row, k) {
        k
    } else {
        spec_first_crossing(row, k + 1)
    }
}

/// Rolloff bin of one frame: 0 as a sentinel for a near-silent frame,
/// otherwise the first bin whose cumulative energy reaches 85% of the total.
pub open spec fn spec_frame_rolloff_bin(row: Seq<u64>) -> int {
    if spec_energy(row) < SILENCE_ENERGY as int {
        0
    } else {
        spec_first_crossing(row, 0)
    }
}

/// Rolloff frequency in millihertz: `(bin / bins) * nyquist`, carried out
/// exactly as `floor(bin * sample_rate * 500 / bins)`.
pub open spec fn spec_rolloff_mhz(bin: int, sample_rate: u32, bins: int) -> int {
    (bin * sample_rate * 500) / bins
}

/// The frame an output column reads under nearest-frame resampling:
/// `clamp(floor((x / width) * frames), 0, frames - 1)`.
pub open spec fn spec_nearest_frame(x: int, width: int, frames: int) -> int {
    let f = (x * frames) / width;
    if f < frames - 1 {
        f
    } else {
        frames - 1
    }
}

/// Rolloff value of output column `x`, in millihertz.
pub open spec fn spec_column_rolloff_mhz(
    stft: &StftResult,
    sample_rate: u32,
    width: int,
    x: int,
) -> int {
    let frame = spec_nearest_frame(x, width, stft.magnitudes@.len() as int);
    spec_rolloff_mhz(
        spec_frame_rolloff_bin(stft.magnitudes@[frame]@),
        sample_rate,
        NUM_FREQ_BINS as int,
    )
}

/// Energy is a sum of squares: never negative, and bounded once every
/// magnitude is.
proof fn lemma_energy_bound(row: Seq<u64>)
    requires
        forall|i: int| 0 <= i < row.len() ==> #[trigger] row[i] < MAX_MAGNITUDE,
    ensures
        0 <= spec_energy(row) <= row.len() * 0x4_0000_0000_0000_0000_0000_0000_00,
    decreases row.len(),
{
    if row.len() > 0 {
        assert forall|i: int| 0 <= i < row.drop_last().len() implies #[trigger] row.drop_last()[i]
            < MAX_MAGNITUDE by {
            assert(row.drop_last()[i] == row[i]);
        }
        lemma_energy_bound(row.drop_last());
        assert(0 <= row.last() * row.last() <= 0x4_0000_0000_0000_0000_0000_0000_00)
            by (nonlinear_arith)
            requires 0 <= row.last() < 0x20_0000_0000_0000;
    }
}

/// Appending one bin to a prefix adds exactly that bin's squared magnitude.
proof fn lemma_energy_take_step(row: Seq<u64>, j: int)
    requires
        0 <= j < row.len(),
    ensures
        spec_energy(row.take(j + 1)) == spec_energy(row.take(j)) + row[j] * row[j],
{
    assert(row.take(j + 1).drop_last() =~= row.take(j));
    assert(row.take(j + 1).last() == row[j]);
}

/// The monotonic cumulative-energy scan has a well-defined answer: the bin
/// that first reaches the threshold, with none below it, is the one the
/// scan from any earlier start returns.
pub proof fn lemma_first_crossing_from(row: Seq<u64>, s: int, k: int)
    requires
        0 <= s <= k < row.len(),
        spec_crossed(row, k),
        forall|t: int| s <= t < k ==> !(#[trigger] spec_crossed(row, t)),
    ensures
        spec_first_crossing(row, s) == k,
    decreases k - s,
{
    if s < k {
        lemma_first_crossing_from(row, s + 1, k);
    }
}

/// A near-silent frame, in particular an all-zero one, takes the sentinel:
/// its rolloff bin, and so its rolloff frequency, is 0.
pub proof fn lemma_silent_frame_rolloff(row: Seq<u64>)
    requires
        forall|i: int| 0 <= i < row.len() ==> #[trigger] row[i] == 0,
    ensures
        spec_energy(row) == 0,
        spec_frame_rolloff_bin(row) == 0,
    decreases row.len(),
{
    if row.len() > 0 {
        lemma_silent_frame_rolloff(row.drop_last());
    }
}

/// Scaling every magnitude of a frame by a constant scales its energy by
/// the square of that constant.
proof fn lemma_energy_scale(row: Seq<u64>, scaled: Seq<u64>, c: int)
    requires
        scaled.len() == row.len(),
        forall|i: int| 0 <= i < row.len() ==> #[trigger] scaled[i] == c * row[i],
    ensures
        spec_energy(scaled) == c * c * spec_energy(row),
    decreases row.len(),
{
    if row.len() == 0 {
        assert(c * c * 0 == 0) by (nonlinear_arith);
    } else {
        let ds = scaled.drop_last();
        let dr = row.drop_last();
        assert forall|i: int| 0 <= i < dr.len() implies #[trigger] ds[i] == c * dr[i] by {
            assert(ds[i] == scaled[i] && dr[i] == row[i]);
        }
        lemma_energy_scale(dr, ds, c);
        let m = row.last() as int;
        assert(scaled.last() == c * m);
        assert((c * m) * (c * m) == c * c * (m * m)) by (nonlinear_arith);
        assert(c * c * spec_energy(row.drop_last()) + c * c * (m * m) == c * c * (spec_energy(
            row.drop_last(),
        ) + m * m)) by (nonlinear_arith);
    }
}

/// The crossing test is purely relative, so it survives any positive gain.
proof fn lemma_crossed_scale(row: Seq<u64>, scaled: Seq<u64>, c: int, k: int)
    requires
        c >= 1,
        scaled.len() == row.len(),
        forall|i: int| 0 <= i < row.len() ==> #[trigger] scaled[i] == c * row[i],
        0 <= k < row.len(),
    ensures
        spec_crossed(scaled, k) == spec_crossed(row, k),
{
    assert forall|i: int| 0 <= i < row.take(k + 1).len() implies #[trigger] scaled.take(k + 1)[i]
        == c * row.take(k + 1)[i] by {
        assert(scaled.take(k + 1)[i] == scaled[i] && row.take(k + 1)[i] == row[i]);
    }
    lemma_energy_scale(row.take(k + 1), scaled.take(k + 1), c);
    lemma_energy_scale(row, scaled, c);
    let x = spec_energy(row.take(k + 1));
    let t = spec_energy(row);
    assert((100 * (c * c * x) >= 85 * (c * c * t)) == (100 * x >= 85 * t)) by (nonlinear_arith)
        requires c >= 1;
}

/// Amplitude invariance of the rolloff scan: scaling every magnitude of a
/// frame by a positive constant leaves the scan's answer unchanged — the
/// 85% threshold compares energies only to each other. (Only the absolute
/// near-silence floor is sensitive to gain, so both frames are asked to
/// sit above it.)
pub proof fn lemma_rolloff_gain_invariant(row: Seq<u64>, scaled: Seq<u64>, c: int)
    requires
        c >= 1,
        scaled.len() == row.len(),
        forall|i: int| 0 <= i < row.len() ==> #[trigger] scaled[i] == c * row[i],
        spec_energy(row) >= SILENCE_ENERGY as int,
    ensures
        spec_energy(scaled) >= SILENCE_ENERGY as int,
        spec_frame_rolloff_bin(scaled) == spec_frame_rolloff_bin(row),
{
    lemma_energy_scale(row, scaled, c);
    assert(c * c * spec_energy(row) >= spec_energy(row)) by (nonlinear_arith)
        requires c >= 1, spec_energy(row) >= 0;
    lemma_energy_bound_nonneg(row);
    lemma_first_crossing_scale(row, scaled, c, 0);
}

/// Energy is never negative, whatever the magnitudes.
proof fn lemma_energy_bound_nonneg(row: Seq<u64>)
    ensures
        spec_energy(row) >= 0,
    decreases row.len(),
{
    if row.len() > 0 {
        lemma_energy_bound_nonneg(row.drop_last());
        assert(row.last() * row.last() >= 0) by (nonlinear_arith);
    }
}

proof fn lemma_first_crossing_scale(row: Seq<u64>, scaled: Seq<u64>, c: int, k: int)
    requires
        c >= 1,
        scaled.len() == row.len(),
        forall|i: int| 0 <= i < row.len() ==> #[trigger] scaled[i] == c * row[i],
        0 <= k,
    ensures
        spec_first_crossing(scaled, k) == spec_first_crossing(row, k),
    decreases row.len() - k,
{
    if k < row.len() {
        lemma_crossed_scale(row, scaled, c, k);
        if !spec_crossed(row, k) {
            lemma_first_crossing_scale(row, scaled, c, k + 1);
        }
    }
}

/// Silence handling: an all-zero analysis grid gives every output column
/// the rolloff sentinel of 0 Hz, whatever the output width.
pub proof fn lemma_silent_rolloff_series(
    stft: &StftResult,
    sample_rate: u32,
    width: int,
    x: int,
)
    requires
        stft.well_formed(),
        0 <= x < width,
        forall|i: int, j: int|
            0 <= i < stft.magnitudes@.len() && 0 <= j < stft.magnitudes@[i]@.len()
                ==> #[trigger] stft.magnitudes@[i]@[j] == 0,
    ensures
        spec_column_rolloff_mhz(stft, sample_rate, width, x) == 0,
{
    let frames = stft.magnitudes@.len() as int;
    let f = spec_nearest_frame(x, width, frames);
    vstd::arithmetic::mul::lemma_mul_nonnegative(x, frames);
    vstd::arithmetic::div_mod::lemma_div_pos_is_pos(x * frames, width);
    assert(0 <= f < frames);
    let row = stft.magnitudes@[f]@;
    assert forall|j: int| 0 <= j < row.len() implies #[trigger] row[j] == 0 by {
        assert(stft.magnitudes@[f]@[j] == 0);
    }
    lemma_silent_frame_rolloff(row);
    assert(0 * sample_rate * 500 == 0) by (nonlinear_arith);
    vstd::arithmetic::div_mod::lemma_div_of0(NUM_FREQ_BINS as int);
}

/// Rolloff bin of one frame of fixed-point magnitudes.
///
/// Near-silent frames take the documented 0 sentinel; otherwise the result
/// is the first bin whose cumulative energy reaches 85% of the frame's
/// total, which always exists, so the result lies strictly below the bin
/// count.
pub fn frame_rolloff_bin(frame: &Vec<u64>) -> (r: usize)
    requires
        1 <= frame@.len() <= NUM_FREQ_BINS,
        forall|i: int| 0 <= i < frame@.len() ==> #[trigger] frame@[i] < MAX_MAGNITUDE,
    ensures
        r == spec_frame_rolloff_bin(frame@),
        r < frame@.len(),
{
    proof {
        lemma_energy_bound(frame@);
    }
    let n = frame.len();
    let mut total: u128 = 0;
    let mut j: usize = 0;
    while j < n
        invariant
            n == frame@.len(),
            1 <= n <= NUM_FREQ_BINS,
            forall|i: int| 0 <= i < frame@.len() ==> #[trigger] frame@[i] < MAX_MAGNITUDE,
            j <= n,
            total == spec_energy(frame@.take(j as int)),
            total <= (j as int) * 0x4_0000_0000_0000_0000_0000_0000_00,
        decreases n - j,
    {
        let m = frame[j];
        let mq: u128 = m as u128;
        proof {
            lemma_energy_take_step(frame@, j as int);
            assert(0 <= (mq as int) * (mq as int) <= 0x4_0000_0000_0000_0000_0000_0000_00)
                by (nonlinear_arith)
                requires 0 <= (mq as int) < 0x20_0000_0000_0000;
        }
        total = total + mq * mq;
        j += 1;
    }
    proof {
        assert(frame@.take(n as int) =~= frame@);
    }
    if total < SILENCE_ENERGY {
        return 0;
    }
    let mut cum: u128 = 0;
    let mut k: usize = 0;
    while k < n
        invariant
            n == frame@.len(),
            1 <= n <= NUM_FREQ_BINS,
            forall|i: int| 0 <= i < frame@.len() ==> #[trigger] frame@[i] < MAX_MAGNITUDE,
            k <= n,
            cum == spec_energy(frame@.take(k as int)),
            cum <= (k as int) * 0x4_0000_0000_0000_0000_0000_0000_00,
            total == spec_energy(frame@),
            total <= (n as int) * 0x4_0000_0000_0000_0000_0000_0000_00,
            total >= SILENCE_ENERGY,
            forall|t: int| 0 <= t < k ==> !(#[trigger] spec_crossed(frame@, t)),
        decreases n - k,
    {
        let m = frame[k];
        let mq: u128 = m as u128;
        proof {
            lemma_energy_take_step(frame@, k as int);
            assert(0 <= (mq as int) * (mq as int) <= 0x4_0000_0000_0000_0000_0000_0000_00)
                by (nonlinear_arith)
                requires 0 <= (mq as int) < 0x20_0000_0000_0000;
        }
        cum = cum + mq * mq;
        if 100 * cum >= ROLLOFF_PERCENT * total {
            proof {
                lemma_first_crossing_from(frame@, 0, k as int);
            }
            return k;
        }
        k += 1;
    }
    proof {
        lemma_energy_bound(frame@);
        assert(frame@.take(((n - 1) as int) + 1) =~= frame@);
        assert(spec_crossed(frame@, (n - 1) as int));
        assert(false);
    }
    0
}

/// Per-column spectral rolloff of a completed analysis, in millihertz.
///
/// Each frame's rolloff bin comes from the monotonic cumulative-energy
/// scan (or the 0 sentinel for near-silence); the per-frame series is then
/// resampled to one value per output column by nearest-frame lookup, with
/// no interpolation across frames. Every value lies in `[0, nyquist]`.
pub fn compute_spectral_rolloff(
    stft: &StftResult,
    sample_rate: u32,
    output_width: u32,
) -> (r: Vec<u64>)
    requires
        stft.well_formed(),
        sample_rate >= 1,
    ensures
        r@.len() == output_width,
        forall|x: int|
            0 <= x < output_width ==> #[trigger] r@[x] == spec_column_rolloff_mhz(
                stft,
                sample_rate,
                output_width as int,
                x,
            ),
        forall|x: int|
            0 <= x < output_width ==> #[trigger] r@[x] <= (sample_rate as int) * 500,
{
    let num_frames = stft.magnitudes.len();
    let mut per_frame: Vec<usize> = Vec::new();
    let mut i: usize = 0;
    while i < num_frames
        invariant
            stft.well_formed(),
            num_frames == stft.magnitudes@.len(),
            i <= num_frames,
            per_frame@.len() == i,
            forall|t: int|
                0 <= t < i ==> #[trigger] per_frame@[t] == spec_frame_rolloff_bin(
                    stft.magnitudes@[t]@,
                ) && per_frame@[t] < NUM_FREQ_BINS,
        decreases num_frames - i,
    {
        let bin = frame_rolloff_bin(&stft.magnitudes[i]);
        per_frame.push(bin);
        i += 1;
    }
    let mut out: Vec<u64> = Vec::new();
    let mut x: usize = 0;
    while x < output_width as usize
        invariant
            stft.well_formed(),
            num_frames == stft.magnitudes@.len(),
            sample_rate >= 1,
            per_frame@.len() == num_frames,
            forall|t: int|
                0 <= t < num_frames ==> #[trigger] per_frame@[t] == spec_frame_rolloff_bin(
                    stft.magnitudes@[t]@,
                ) && per_frame@[t] < NUM_FREQ_BINS,
            x <= output_width,
            out@.len() == x,
            forall|t: int|
                0 <= t < x ==> #[trigger] out@[t] == spec_column_rolloff_mhz(
                    stft,
                    sample_rate,
                    output_width as int,
                    t,
                ),
            forall|t: int| 0 <= t < x ==> #[trigger] out@[t] <= (sample_rate as int) * 500,
        decreases output_width - x,
    {
        proof {
            vstd::arithmetic::mul::lemma_mul_upper_bound(
                x as int,
                0xFFFF_FFFF,
                num_frames as int,
                0xFFFF_FFFF_FFFF_FFFF,
            );
        }
        let prod: u128 = (x as u128) * (num_frames as u128);
        let f_raw: u128 = prod / (output_width as u128);
        proof {
            assert((x as int) * (num_frames as int) < (output_width as int) * (num_frames as int))
                by (nonlinear_arith)
                requires 0 <= (x as int) < (output_width as int), num_frames >= 1;
            vstd::arithmetic::div_mod::lemma_multiply_divide_lt(
                (x as int) * (num_frames as int),
                output_width as int,
                num_frames as int,
            );
        }
        let f: usize = if (f_raw as usize) < num_frames - 1 {
            f_raw as usize
        } else {
            num_frames - 1
        };
        let bin = per_frame[f];
        proof {
            vstd::arithmetic::mul::lemma_mul_upper_bound(
                bin as int,
                1024,
                sample_rate as int,
                0xFFFF_FFFF,
            );
        }
        let mhz_wide: u128 = (bin as u128) * (sample_rate as u128) * 500 / (NUM_FREQ_BINS as u128);
        proof {
            let b = bin as int;
            let s = sample_rate as int;
            let nb = NUM_FREQ_BINS as int;
            assert(b * s * 500 <= nb * (s * 500)) by (nonlinear_arith)
                requires 0 <= b <= nb, s >= 1;
            vstd::arithmetic::div_mod::lemma_div_is_ordered(b * s * 500, nb * (s * 500), nb);
            vstd::arithmetic::div_mod::lemma_div_multiples_vanish(s * 500, nb);
        }
        let mhz: u64 = mhz_wide as u64;
        out.push(mhz);
        x += 1;
    }
    out
}

} // verus!
