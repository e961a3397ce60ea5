use vstd::prelude::*;

verus! {

use crate::color::Rgb8;
use crate::errors::SpekError;
use crate::stft::{StftResult, MAX_MAGNITUDE};

/// Denominator of the fractional bin positions a logarithmic frequency axis
/// hands in: positions are fixed-point with 16 fractional bits.
pub const FRAC_ONE: u32 = 65536;

/// Fractional offset of an interpolation point past a grid index:
/// the value `num / den`, with `0 <= num < den`.
#[derive(Debug, Clone, Copy, PartialEq, Eq, Structural)]
pub struct Frac {
    pub num: u32,
    pub den: u32,
}

impl Frac {
    pub open spec fn wf(&self) -> bool {
        0 < self.den && self.num < self.den
    }
}

/// Where an output column reads the time axis: the two frames to blend and
/// the fractional position between them.
#[derive(Debug, Clone, Copy, PartialEq, Eq, Structural)]
pub struct TimePos {
    pub t0: usize,
    pub t1: usize,
    pub frac: Frac,
}

impl TimePos {
    pub open spec fn wf(&self, frames: int) -> bool {
        self.frac.wf() && self.t0 < frames && self.t1 < frames
    }
}

/// Where an output row reads the frequency axis: the two bins to blend and
/// the fractional position between them.
#[derive(Debug, Clone, Copy, PartialEq, Eq, Structural)]
pub struct BinPos {
    pub f0: usize,
    pub f1: usize,
    pub frac: Frac,
}

impl BinPos {
    pub open spec fn wf(&self, bins: int) -> bool {
        self.frac.wf() && self.f0 < bins && self.f1 < bins
    }
}

/// Time position of output column `x`: continuous position
/// `t = (x / width) * frames`, split into `t0 = clamp(floor(t), 0, frames-1)`,
/// `t1 = min(t0 + 1, frames - 1)` and the fractional part of `t`.
pub open spec fn spec_time_pos(x: int, width: int, frames: int) -> TimePos {
    let t = (x * frames) / width;
    TimePos {
        t0: (if t < frames - 1 {
            t
        } else {
            frames - 1
        }) as usize,
        t1: (if t + 1 < frames - 1 {
            t + 1
        } else {
            frames - 1
        }) as usize,
        frac: Frac { num: ((x * frames) % width) as u32, den: width as u32 },
    }
}

/// Frequency position of output row `y` on a linear axis. Row 0 is the top
/// of the image and stands for the highest frequency, so the row is first
/// inverted; then `bin_pos = (y_inv / height) * bins` is split like the
/// time position.
pub open spec fn spec_bin_pos_linear(y: int, height: int, bins: int) -> BinPos {
    let y_inv = height - 1 - y;
    let p = (y_inv * bins) / height;
    BinPos {
        f0: (if p < bins - 1 {
            p
        } else {
            bins - 1
        }) as usize,
        f1: (if p + 1 < bins - 1 {
            p + 1
        } else {
            bins - 1
        }) as usize,
        frac: Frac { num: ((y_inv * bins) % height) as u32, den: height as u32 },
    }
}

/// Frequency position for a continuous bin position handed in as a
/// fixed-point number `q / FRAC_ONE` (the form a logarithmic axis produces):
/// `f0 = clamp(floor(bin_pos), 0, bins - 1)`, `f1 = min(floor(bin_pos) + 1,
/// bins - 1)`, and the fractional part of `bin_pos`.
pub open spec fn spec_bin_pos_scaled(q: int, bins: int) -> BinPos {
    let p = q / (FRAC_ONE as int);
    BinPos {
        f0: (if p < bins - 1 {
            p
        } else {
            bins - 1
        }) as usize,
        f1: (if p + 1 < bins - 1 {
            p + 1
        } else {
            bins - 1
        }) as usize,
        frac: Frac { num: (q % (FRAC_ONE as int)) as u32, den: FRAC_ONE },
    }
}

/// Bilinear interpolation of the four neighboring magnitudes, carried out
/// exactly: time is blended first with `t`, then frequency with `f`, and the
/// single exact rational result is rounded down once.
pub open spec fn spec_bilinear(
    m00: int,
    m01: int,
    m10: int,
    m11: int,
    t: Frac,
    f: Frac,
) -> int {
    let tn = t.num as int;
    let td = t.den as int;
    let bn = f.num as int;
    let bd = f.den as int;
    (m00 * (td - tn) * (bd - bn) + m10 * tn * (bd - bn) + m01 * (td - tn) * bn + m11 * tn * bn) / (
    td * bd)
}

/// Interpolated magnitude one output pixel reads from the analysis grid.
pub open spec fn spec_pixel_mag(stft: &StftResult, t: TimePos, b: BinPos) -> int {
    spec_bilinear(
        stft.magnitudes@[t.t0 as int]@[b.f0 as int] as int,
        stft.magnitudes@[t.t0 as int]@[b.f1 as int] as int,
        stft.magnitudes@[t.t1 as int]@[b.f0 as int] as int,
        stft.magnitudes@[t.t1 as int]@[b.f1 as int] as int,
        t.frac,
        b.frac,
    )
}

/// A silent analysis interpolates to silence: if every magnitude of a
/// well-formed grid is zero, every pixel of the mapper's output is zero,
/// whatever the output dimensions and the axis mode.
pub proof fn lemma_silent_magnitudes(stft: &StftResult, t: TimePos, b: BinPos)
    requires
        stft.well_formed(),
        t.wf(stft.magnitudes@.len() as int),
        b.wf(crate::stft::NUM_FREQ_BINS as int),
        forall|i: int, j: int|
            0 <= i < stft.magnitudes@.len() && 0 <= j < stft.magnitudes@[i]@.len()
                ==> #[trigger] stft.magnitudes@[i]@[j] == 0,
    ensures
        spec_pixel_mag(stft, t, b) == 0,
{
    assert(stft.magnitudes@[t.t0 as int]@[b.f0 as int] == 0);
    assert(stft.magnitudes@[t.t0 as int]@[b.f1 as int] == 0);
    assert(stft.magnitudes@[t.t1 as int]@[b.f0 as int] == 0);
    assert(stft.magnitudes@[t.t1 as int]@[b.f1 as int] == 0);
    let tni = t.frac.num as int;
    let tdi = t.frac.den as int;
    let bni = b.frac.num as int;
    let bdi = b.frac.den as int;
    assert(0 < tdi * bdi) by (nonlinear_arith)
        requires
            0 < tdi,
            0 < bdi,
    ;
    assert(0 * (tdi - tni) * (bdi - bni) + 0 * tni * (bdi - bni) + 0 * (tdi - tni) * bni + 0 * tni
        * bni == 0) by (nonlinear_arith);
    vstd::arithmetic::div_mod::lemma_div_of0(tdi * bdi);
}

/// Time positions of every output column, in column order.
pub fn column_time_positions(width: u32, num_time_frames: usize) -> (r: Vec<TimePos>)
    requires
        num_time_frames >= 1,
    ensures
        r@.len() == width,
        forall|x: int|
            0 <= x < width ==> #[trigger] r@[x] == spec_time_pos(
                x,
                width as int,
                num_time_frames as int,
            ),
        forall|x: int| 0 <= x < width ==> (#[trigger] r@[x]).wf(num_time_frames as int),
{
    let frames = num_time_frames;
    let mut out: Vec<TimePos> = Vec::new();
    let mut x: usize = 0;
    while x < width as usize
        invariant
            frames == num_time_frames,
            frames >= 1,
            x <= width,
            out@.len() == x,
            forall|t: int|
                0 <= t < x ==> #[trigger] out@[t] == spec_time_pos(
                    t,
                    width as int,
                    frames as int,
                ),
            forall|t: int| 0 <= t < x ==> (#[trigger] out@[t]).wf(frames as int),
        decreases width - x,
    {
        proof {
            vstd::arithmetic::mul::lemma_mul_upper_bound(
                x as int,
                0xFFFF_FFFF,
                frames as int,
                0xFFFF_FFFF_FFFF_FFFF,
            );
        }
        let prod: u128 = (x as u128) * (frames as u128);
        let t_floor_wide: u128 = prod / (width as u128);
        let t_rem: u128 = prod % (width as u128);
        proof {
            assert((x as int) * (frames as int) < (width as int) * (frames as int))
                by (nonlinear_arith)
                requires 0 <= (x as int) < (width as int), frames >= 1;
            vstd::arithmetic::div_mod::lemma_multiply_divide_lt(
                (x as int) * (frames as int),
                width as int,
                frames as int,
            );
            vstd::arithmetic::div_mod::lemma_mod_bound(
                (x as int) * (frames as int),
                width as int,
            );
        }
        let t_floor: usize = t_floor_wide as usize;
        let t0: usize = if t_floor < frames - 1 {
            t_floor
        } else {
            frames - 1
        };
        let t1: usize = if t_floor + 1 < frames - 1 {
            t_floor + 1
        } else {
            frames - 1
        };
        let pos = TimePos { t0, t1, frac: Frac { num: t_rem as u32, den: width } };
        out.push(pos);
        x += 1;
    }
    out
}

/// Frequency positions of every output row on a linear axis, in row order
/// (row 0 on top).
pub fn row_bin_positions_linear(height: u32, num_freq_bins: usize) -> (r: Vec<BinPos>)
    requires
        num_freq_bins >= 1,
    ensures
        r@.len() == height,
        forall|y: int|
            0 <= y < height ==> #[trigger] r@[y] == spec_bin_pos_linear(
                y,
                height as int,
                num_freq_bins as int,
            ),
        forall|y: int| 0 <= y < height ==> (#[trigger] r@[y]).wf(num_freq_bins as int),
{
    let bins = num_freq_bins;
    let mut out: Vec<BinPos> = Vec::new();
    let mut y: usize = 0;
    while y < height as usize
        invariant
            bins == num_freq_bins,
            bins >= 1,
            y <= height,
            out@.len() == y,
            forall|t: int|
                0 <= t < y ==> #[trigger] out@[t] == spec_bin_pos_linear(
                    t,
                    height as int,
                    bins as int,
                ),
            forall|t: int| 0 <= t < y ==> (#[trigger] out@[t]).wf(bins as int),
        decreases height - y,
    {
        let y_inv: usize = (height as usize) - 1 - y;
        proof {
            vstd::arithmetic::mul::lemma_mul_upper_bound(
                y_inv as int,
                0xFFFF_FFFF,
                bins as int,
                0xFFFF_FFFF_FFFF_FFFF,
            );
        }
        let prod: u128 = (y_inv as u128) * (bins as u128);
        let p_floor_wide: u128 = prod / (height as u128);
        let p_rem: u128 = prod % (height as u128);
        proof {
            assert((y_inv as int) * (bins as int) < (height as int) * (bins as int))
                by (nonlinear_arith)
                requires 0 <= (y_inv as int) < (height as int), bins >= 1;
            vstd::arithmetic::div_mod::lemma_multiply_divide_lt(
                (y_inv as int) * (bins as int),
                height as int,
                bins as int,
            );
            vstd::arithmetic::div_mod::lemma_mod_bound(
                (y_inv as int) * (bins as int),
                height as int,
            );
        }
        let p_floor: usize = p_floor_wide as usize;
        let f0: usize = if p_floor < bins - 1 {
            p_floor
        } else {
            bins - 1
        };
        let f1: usize = if p_floor + 1 < bins - 1 {
            p_floor + 1
        } else {
            bins - 1
        };
        let pos = BinPos { f0, f1, frac: Frac { num: p_rem as u32, den: height } };
        out.push(pos);
        y += 1;
    }
    out
}

/// Frequency position for one fixed-point continuous bin position, as a
/// logarithmic axis computes them (one value per output row).
pub fn bin_pos_from_scaled(bin_q: u64, num_freq_bins: usize) -> (r: BinPos)
    requires
        num_freq_bins >= 1,
        bin_q <= (num_freq_bins as int) * (FRAC_ONE as int),
    ensures
        r == spec_bin_pos_scaled(bin_q as int, num_freq_bins as int),
        r.wf(num_freq_bins as int),
{
    let bins = num_freq_bins;
    let p_floor_wide: u64 = bin_q / (FRAC_ONE as u64);
    let p_rem: u64 = bin_q % (FRAC_ONE as u64);
    proof {
        vstd::arithmetic::div_mod::lemma_multiply_divide_le(
            bin_q as int,
            FRAC_ONE as int,
            bins as int,
        );
        vstd::arithmetic::mul::lemma_mul_is_commutative(bins as int, FRAC_ONE as int);
        vstd::arithmetic::div_mod::lemma_mod_bound(bin_q as int, FRAC_ONE as int);
    }
    let p_floor: usize = p_floor_wide as usize;
    let f0: usize = if p_floor < bins - 1 {
        p_floor
    } else {
        bins - 1
    };
    let f1: usize = if p_floor < bins - 1 {
        p_floor + 1
    } else {
        bins - 1
    };
    BinPos { f0, f1, frac: Frac { num: p_rem as u32, den: FRAC_ONE } }
}

/// Exact bilinear interpolation of one pixel's magnitude.
pub fn bilinear_magnitude(stft: &StftResult, t: &TimePos, b: &BinPos) -> (r: u64)
    requires
        stft.well_formed(),
        t.wf(stft.magnitudes@.len() as int),
        b.wf(crate::stft::NUM_FREQ_BINS as int),
    ensures
        r == spec_pixel_mag(stft, *t, *b),
        r < MAX_MAGNITUDE,
{
    let m00: u128 = stft.magnitudes[t.t0][b.f0] as u128;
    let m01: u128 = stft.magnitudes[t.t0][b.f1] as u128;
    let m10: u128 = stft.magnitudes[t.t1][b.f0] as u128;
    let m11: u128 = stft.magnitudes[t.t1][b.f1] as u128;
    let tn: u128 = t.frac.num as u128;
    let td: u128 = t.frac.den as u128;
    let bn: u128 = b.frac.num as u128;
    let bd: u128 = b.frac.den as u128;
    proof {
        let m00i = m00 as int;
        let m01i = m01 as int;
        let m10i = m10 as int;
        let m11i = m11 as int;
        let tni = tn as int;
        let tdi = td as int;
        let bni = bn as int;
        let bdi = bd as int;
        assert((tdi - tni) * (bdi - bni) + tni * (bdi - bni) + (tdi - tni) * bni + tni * bni == tdi
            * bdi) by (nonlinear_arith);
        assert(0 <= m00i * (tdi - tni) < 0x2_0000_0000_0000_0000_0000_0 && 0 <= m00i * (tdi - tni)
            * (bdi - bni) <= 0x1F_FFFF_FFFF_FFFF * ((tdi - tni) * (bdi - bni)) && m00i * (tdi
            - tni) * (bdi - bni) < 0x2_0000_0000_0000_0000_0000_0000_0000_0) by (nonlinear_arith)
            requires
                0 <= m00i <= 0x1F_FFFF_FFFF_FFFF,
                0 <= tni < tdi <= 0xFFFF_FFFF,
                0 <= bni < bdi <= 0xFFFF_FFFF,
        ;
        assert(0 <= m10i * tni < 0x2_0000_0000_0000_0000_0000_0 && 0 <= m10i * tni * (bdi - bni)
            <= 0x1F_FFFF_FFFF_FFFF * (tni * (bdi - bni)) && m10i * tni * (bdi - bni)
            < 0x2_0000_0000_0000_0000_0000_0000_0000_0) by (nonlinear_arith)
            requires
                0 <= m10i <= 0x1F_FFFF_FFFF_FFFF,
                0 <= tni < tdi <= 0xFFFF_FFFF,
                0 <= bni < bdi <= 0xFFFF_FFFF,
        ;
        assert(0 <= m01i * (tdi - tni) < 0x2_0000_0000_0000_0000_0000_0 && 0 <= m01i * (tdi - tni)
            * bni <= 0x1F_FFFF_FFFF_FFFF * ((tdi - tni) * bni) && m01i * (tdi - tni) * bni
            < 0x2_0000_0000_0000_0000_0000_0000_0000_0) by (nonlinear_arith)
            requires
                0 <= m01i <= 0x1F_FFFF_FFFF_FFFF,
                0 <= tni < tdi <= 0xFFFF_FFFF,
                0 <= bni < bdi <= 0xFFFF_FFFF,
        ;
        assert(0 <= m11i * tni < 0x2_0000_0000_0000_0000_0000_0 && 0 <= m11i * tni * bni
            <= 0x1F_FFFF_FFFF_FFFF * (tni * bni) && m11i * tni * bni
            < 0x2_0000_0000_0000_0000_0000_0000_0000_0) by (nonlinear_arith)
            requires
                0 <= m11i <= 0x1F_FFFF_FFFF_FFFF,
                0 <= tni < tdi <= 0xFFFF_FFFF,
                0 <= bni < bdi <= 0xFFFF_FFFF,
        ;
        assert(0 < tdi * bdi <= 0xFFFF_FFFF * 0xFFFF_FFFF) by (nonlinear_arith)
            requires
                0 < tdi <= 0xFFFF_FFFF,
                0 < bdi <= 0xFFFF_FFFF,
        ;
    }
    let num: u128 = m00 * (td - tn) * (bd - bn) + m10 * tn * (bd - bn) + m01 * (td - tn) * bn + m11
        * tn * bn;
    let den: u128 = td * bd;
    proof {
        let tni = tn as int;
        let tdi = td as int;
        let bni = bn as int;
        let bdi = bd as int;
        assert(num <= 0x1F_FFFF_FFFF_FFFF * (tdi * bdi));
        assert(0x1F_FFFF_FFFF_FFFF * (tdi * bdi) < (tdi * bdi) * 0x20_0000_0000_0000)
            by (nonlinear_arith)
            requires
                0 < tdi * bdi,
        ;
    }
    let r_wide: u128 = num / den;
    proof {
        vstd::arithmetic::div_mod::lemma_multiply_divide_lt(
            num as int,
            den as int,
            0x20_0000_0000_0000,
        );
    }
    r_wide as u64
}

/// The mapper's whole output: one interpolated magnitude per (column, row)
/// pair, columns outermost.
pub fn interpolate_grid(stft: &StftResult, cols: &Vec<TimePos>, rows: &Vec<BinPos>) -> (r: Vec<
    Vec<u64>,
>)
    requires
        stft.well_formed(),
        forall|x: int|
            0 <= x < cols@.len() ==> (#[trigger] cols@[x]).wf(stft.magnitudes@.len() as int),
        forall|y: int|
            0 <= y < rows@.len() ==> (#[trigger] rows@[y]).wf(crate::stft::NUM_FREQ_BINS as int),
    ensures
        r@.len() == cols@.len(),
        forall|x: int| 0 <= x < r@.len() ==> (#[trigger] r@[x])@.len() == rows@.len(),
        forall|x: int, y: int|
            0 <= x < cols@.len() && 0 <= y < rows@.len() ==> #[trigger] r@[x]@[y]
                == spec_pixel_mag(stft, cols@[x], rows@[y]),
{
    let mut out: Vec<Vec<u64>> = Vec::new();
    let mut x: usize = 0;
    while x < cols.len()
        invariant
            stft.well_formed(),
            forall|t: int|
                0 <= t < cols@.len() ==> (#[trigger] cols@[t]).wf(stft.magnitudes@.len() as int),
            forall|t: int|
                0 <= t < rows@.len() ==> (#[trigger] rows@[t]).wf(
                    crate::stft::NUM_FREQ_BINS as int,
                ),
            x <= cols@.len(),
            out@.len() == x,
            forall|t: int| 0 <= t < x ==> (#[trigger] out@[t])@.len() == rows@.len(),
            forall|t: int, y: int|
                0 <= t < x && 0 <= y < rows@.len() ==> #[trigger] out@[t]@[y] == spec_pixel_mag(
                    stft,
                    cols@[t],
                    rows@[y],
                ),
        decreases cols@.len() - x,
    {
        let col_pos = cols[x];
        let mut col: Vec<u64> = Vec::new();
        let mut y: usize = 0;
        while y < rows.len()
            invariant
                stft.well_formed(),
                x < cols@.len(),
                col_pos == cols@[x as int],
                col_pos.wf(stft.magnitudes@.len() as int),
                forall|t: int|
                    0 <= t < rows@.len() ==> (#[trigger] rows@[t]).wf(
                        crate::stft::NUM_FREQ_BINS as int,
                    ),
                y <= rows@.len(),
                col@.len() == y,
                forall|t: int|
                    0 <= t < y ==> #[trigger] col@[t] == spec_pixel_mag(
                        stft,
                        cols@[x as int],
                        rows@[t],
                    ),
            decreases rows@.len() - y,
        {
            let row_pos = rows[y];
            let m = bilinear_magnitude(stft, &col_pos, &row_pos);
            col.push(m);
            y += 1;
        }
        out.push(col);
        x += 1;
    }
    out
}

/// Everything one pipeline run produces: the assembled image, the
/// per-column rolloff series in millihertz when that stage was enabled,
/// and the completed analysis grid for further quality checks.
pub struct SpectrogramResult {
    pub image: SpectrogramImage,
    pub rolloff_frequencies: Option<Vec<u64>>,
    pub stft: StftResult,
}

/// The assembled image: a `width` by `height` grid of RGB pixels in
/// row-major order, row 0 on top standing for the highest visualized
/// frequency.
pub struct SpectrogramImage {
    pub width: u32,
    pub height: u32,
    pub pixels: Vec<Rgb8>,
}

impl SpectrogramImage {
    pub open spec fn well_formed(&self) -> bool {
        self.pixels@.len() == (self.width as int) * (self.height as int)
    }
}

/// Requested output dimensions must both be positive; checked before any
/// computation starts.
pub fn validate_dimensions(width: u32, height: u32) -> (r: Result<(), SpekError>)
    ensures
        (width > 0 && height > 0) <==> r == Ok::<(), SpekError>(()),
        !(width > 0 && height > 0) <==> r == Err::<(), SpekError>(
            SpekError::InvalidDimensions { width, height },
        ),
{
    if width == 0 || height == 0 {
        Err(SpekError::InvalidDimensions { width, height })
    } else {
        Ok(())
    }
}

/// The image assembler: writes each column's colors into the pixel grid
/// keyed by its indices, so the result does not depend on any execution
/// order. `indices[x][y]` selects the LUT entry of the pixel at column `x`,
/// row `y`.
pub fn assemble_image(
    width: u32,
    height: u32,
    indices: &Vec<Vec<u16>>,
    lut: &Vec<Rgb8>,
) -> (r: Result<SpectrogramImage, SpekError>)
    requires
        indices@.len() == width,
        forall|x: int| 0 <= x < indices@.len() ==> (#[trigger] indices@[x])@.len() == height,
        forall|x: int, y: int|
            0 <= x < indices@.len() && 0 <= y < indices@[x]@.len()
                ==> (#[trigger] indices@[x]@[y]) < lut@.len(),
        (width as int) * (height as int) <= usize::MAX,
    ensures
        (width == 0 || height == 0) ==> r == Err::<SpectrogramImage, SpekError>(
            SpekError::InvalidDimensions { width, height },
        ),
        (width > 0 && height > 0) ==> match r {
            Ok(img) => {
                &&& img.width == width
                &&& img.height == height
                &&& img.well_formed()
                &&& forall|x: int, y: int|
                    0 <= x < width && 0 <= y < height ==> #[trigger] img.pixels@[y * (width as int)
                        + x] == lut@[indices@[x]@[y] as int]
            },
            Err(_) => false,
        },
{
    if width == 0 || height == 0 {
        return Err(SpekError::InvalidDimensions { width, height });
    }
    let w = width as usize;
    let h = height as usize;
    let mut pixels: Vec<Rgb8> = Vec::new();
    let mut y: usize = 0;
    while y < h
        invariant
            w == width,
            h == height,
            w >= 1,
            h >= 1,
            indices@.len() == width,
            forall|x: int| 0 <= x < indices@.len() ==> (#[trigger] indices@[x])@.len() == height,
            forall|x: int, t: int|
                0 <= x < indices@.len() && 0 <= t < indices@[x]@.len()
                    ==> (#[trigger] indices@[x]@[t]) < lut@.len(),
            (width as int) * (height as int) <= usize::MAX,
            y <= h,
            pixels@.len() == y * (width as int),
            forall|x: int, t: int|
                0 <= x < width && 0 <= t < y ==> #[trigger] pixels@[t * (width as int) + x]
                    == lut@[indices@[x]@[t] as int],
        decreases h - y,
    {
        proof {
            vstd::arithmetic::mul::lemma_mul_inequality(
                (y + 1) as int,
                height as int,
                width as int,
            );
            vstd::arithmetic::mul::lemma_mul_is_distributive_add_other_way(
                width as int,
                y as int,
                1,
            );
            vstd::arithmetic::mul::lemma_mul_is_commutative(height as int, width as int);
        }
        let mut x: usize = 0;
        while x < w
            invariant
                w == width,
                h == height,
                w >= 1,
                h >= 1,
                indices@.len() == width,
                forall|c: int|
                    0 <= c < indices@.len() ==> (#[trigger] indices@[c])@.len() == height,
                forall|c: int, t: int|
                    0 <= c < indices@.len() && 0 <= t < indices@[c]@.len()
                        ==> (#[trigger] indices@[c]@[t]) < lut@.len(),
                y < h,
                (y as int) * (width as int) + width <= (height as int) * (width as int),
                (width as int) * (height as int) <= usize::MAX,
                (height as int) * (width as int) <= usize::MAX,
                x <= w,
                pixels@.len() == (y as int) * (width as int) + x,
                forall|c: int, t: int|
                    0 <= c < width && 0 <= t < y ==> #[trigger] pixels@[t * (width as int) + c]
                        == lut@[indices@[c]@[t] as int],
                forall|c: int|
                    0 <= c < x ==> #[trigger] pixels@[(y as int) * (width as int) + c]
                        == lut@[indices@[c]@[y as int] as int],
            decreases w - x,
        {
            let idx = indices[x][y] as usize;
            let px = lut[idx];
            pixels.push(px);
            proof {
                assert forall|c: int, t: int|
                    0 <= c < width && 0 <= t < y implies #[trigger] pixels@[t * (width as int) + c]
                    == lut@[indices@[c]@[t] as int] by {
                    vstd::arithmetic::mul::lemma_mul_inequality(t + 1, y as int, width as int);
                    vstd::arithmetic::mul::lemma_mul_is_distributive_add_other_way(
                        width as int,
                        t,
                        1,
                    );
                }
            }
            x += 1;
        }
        y += 1;
    }
    proof {
        vstd::arithmetic::mul::lemma_mul_is_commutative(height as int, width as int);
    }
    Ok(SpectrogramImage { width, height, pixels })
}

} // verus!
