use vstd::prelude::*;

verus! {

/// One RGB8 pixel.
#[derive(Debug, Clone, Copy, PartialEq, Eq, Structural)]
pub struct Rgb8 {
    pub r: u8,
    pub g: u8,
    pub b: u8,
}

pub open spec fn spec_is_hex_digit(c: char) -> bool {
    ('0' <= c && c <= '9') || ('a' <= c && c <= 'f') || ('A' <= c && c <= 'F')
}

/// Value of one hexadecimal digit.
pub open spec fn spec_hex_val(c: char) -> int {
    if '0' <= c && c <= '9' {
        c as int - '0' as int
    } else if 'a' <= c && c <= 'f' {
        c as int - 'a' as int + 10
    } else {
        c as int - 'A' as int + 10
    }
}

/// The string with every leading `#` removed.
pub open spec fn spec_strip_hash(s: Seq<char>) -> Seq<char>
    decreases s.len(),
{
    if s.len() > 0 && s[0] == '#' {
        spec_strip_hash(s.drop_first())
    } else {
        s
    }
}

/// Color a hex string stands for: exactly six hex digits after stripping
/// leading `#` give the three channels; anything else resolves to black, a
/// deliberate lenient default rather than an error.
pub open spec fn spec_hex_color(s: Seq<char>) -> Rgb8 {
    let t = spec_strip_hash(s);
    if t.len() == 6 && (forall|i: int| 0 <= i < 6 ==> spec_is_hex_digit(#[trigger] t[i])) {
        (Rgb8 {
            r: (spec_hex_val(t[0]) * 16 + spec_hex_val(t[1])) as u8,
            g: (spec_hex_val(t[2]) * 16 + spec_hex_val(t[3])) as u8,
            b: (spec_hex_val(t[4]) * 16 + spec_hex_val(t[5])) as u8,
        })
    } else {
        (Rgb8 { r: 0, g: 0, b: 0 })
    }
}

/// A prefix of `#` characters strips away completely.
proof fn lemma_strip_hash_skip(s: Seq<char>, i: int)
    requires
        0 <= i <= s.len(),
        forall|j: int| 0 <= j < i ==> s[j] == '#',
    ensures
        spec_strip_hash(s) == spec_strip_hash(s.skip(i)),
    decreases i,
{
    if i > 0 {
        assert(s.len() > 0 && s[0] == '#');
        assert(s.drop_first() =~= s.skip(1));
        assert forall|j: int| 0 <= j < i - 1 implies s.skip(1)[j] == '#' by {
            assert(s.skip(1)[j] == s[j + 1]);
        }
        lemma_strip_hash_skip(s.skip(1), i - 1);
        assert(s.skip(1).skip(i - 1) =~= s.skip(i));
    } else {
        assert(s.skip(0) =~= s);
    }
}

/// A string that does not start with `#` strips to itself.
proof fn lemma_strip_hash_noop(s: Seq<char>)
    requires
        s.len() == 0 || s[0] != '#',
    ensures
        spec_strip_hash(s) == s,
{
}

fn is_hex_digit(c: char) -> (r: bool)
    ensures
        r == spec_is_hex_digit(c),
{
    ('0' <= c && c <= '9') || ('a' <= c && c <= 'f') || ('A' <= c && c <= 'F')
}

fn hex_val(c: char) -> (r: u8)
    requires
        spec_is_hex_digit(c),
    ensures
        r == spec_hex_val(c),
        r < 16,
{
    if '0' <= c && c <= '9' {
        ((c as u32) - ('0' as u32)) as u8
    } else if 'a' <= c && c <= 'f' {
        ((c as u32) - ('a' as u32) + 10) as u8
    } else {
        ((c as u32) - ('A' as u32) + 10) as u8
    }
}

/// Parse a `"#RRGGBB"` hex color; any malformed string resolves to black.
pub fn hex_to_rgb(hex: &str) -> (r: Rgb8)
    ensures
        r == spec_hex_color(hex@),
{
    let n = hex.unicode_len();
    let mut i: usize = 0;
    while i < n && hex.get_char(i) == '#'
        invariant
            n == hex@.len(),
            i <= n,
            forall|j: int| 0 <= j < i ==> hex@[j] == '#',
        decreases n - i,
    {
        i += 1;
    }
    proof {
        lemma_strip_hash_skip(hex@, i as int);
        lemma_strip_hash_noop(hex@.skip(i as int));
    }
    let ghost t = spec_strip_hash(hex@);
    assert(t =~= hex@.skip(i as int));
    if n - i != 6 {
        return Rgb8 { r: 0, g: 0, b: 0 };
    }
    let c0 = hex.get_char(i);
    let c1 = hex.get_char(i + 1);
    let c2 = hex.get_char(i + 2);
    let c3 = hex.get_char(i + 3);
    let c4 = hex.get_char(i + 4);
    let c5 = hex.get_char(i + 5);
    assert(c0 == t[0] && c1 == t[1] && c2 == t[2] && c3 == t[3] && c4 == t[4] && c5 == t[5]);
    if is_hex_digit(c0) && is_hex_digit(c1) && is_hex_digit(c2) && is_hex_digit(c3) && is_hex_digit(
        c4,
    ) && is_hex_digit(c5) {
        assert(forall|j: int| 0 <= j < 6 ==> spec_is_hex_digit(#[trigger] t[j])) by {
            assert(t[0] == c0 && t[1] == c1 && t[2] == c2 && t[3] == c3 && t[4] == c4 && t[5]
                == c5);
        }
        Rgb8 {
            r: hex_val(c0) * 16 + hex_val(c1),
            g: hex_val(c2) * 16 + hex_val(c3),
            b: hex_val(c4) * 16 + hex_val(c5),
        }
    } else {
        Rgb8 { r: 0, g: 0, b: 0 }
    }
}

/// One stop of a color gradient: a position along the gradient, in
/// thousandths (0 the bottom of the scale, 1000 the top), and a hex color.
#[derive(Debug, Clone)]
pub struct ColorStop {
    pub position: u32,
    pub color: String,
}

/// A gradient stop with its color already parsed: what the LUT builder
/// interpolates between.
#[derive(Debug, Clone, Copy, PartialEq, Eq, Structural)]
pub struct GradientStop {
    pub position: u32,
    pub color: Rgb8,
}

/// The parsed form of a stop list, in encounter order.
pub open spec fn spec_gradient_stops(stops: Seq<ColorStop>) -> Seq<GradientStop> {
    stops.map(|i: int, s: ColorStop| GradientStop { position: s.position, color: spec_hex_color(s.color@) })
}

/// Positions never decrease.
pub open spec fn spec_stops_sorted(s: Seq<GradientStop>) -> bool {
    forall|i: int, j: int| 0 <= i <= j < s.len() ==> s[i].position <= s[j].position
}

/// Stable insertion of one stop: it lands after every stop whose position
/// is less than or equal to its own, so stops of equal position keep their
/// encounter order (first seen wins).
pub open spec fn spec_insert_stop(s: Seq<GradientStop>, x: GradientStop) -> Seq<GradientStop>
    decreases s.len(),
{
    if s.len() == 0 {
        seq![x]
    } else if s[0].position <= x.position {
        seq![s[0]] + spec_insert_stop(s.drop_first(), x)
    } else {
        seq![x] + s
    }
}

/// Stable sort of the stop list, ascending by position.
pub open spec fn spec_sort_stops(s: Seq<GradientStop>) -> Seq<GradientStop>
    decreases s.len(),
{
    if s.len() == 0 {
        Seq::empty()
    } else {
        spec_insert_stop(spec_sort_stops(s.drop_last()), s.last())
    }
}

/// Does the pair `(j, j + 1)` of sorted stops bracket scaled position `pn`?
/// Positions compare as exact rationals: LUT slot `i` of `size` sits at
/// `i / (size - 1)` and a stop at `p / 1000`, so with `d = size - 1` the
/// slot position scaled by `1000 * d` is `pn = i * 1000` and a stop's is
/// `p * d`.
pub open spec fn spec_window_brackets(s: Seq<GradientStop>, pn: int, d: int, j: int) -> bool {
    s[j].position * d <= pn <= s[j + 1].position * d
}

/// First bracketing pair at or after `j`, by linear scan; the last pair if
/// none matches earlier.
pub open spec fn spec_bracket(s: Seq<GradientStop>, pn: int, d: int, j: int) -> int
    decreases s.len() - j,
{
    if j >= s.len() - 2 {
        s.len() - 2
    } else if spec_window_brackets(s, pn, d, j) {
        j
    } else {
        spec_bracket(s, pn, d, j + 1)
    }
}

/// One channel of a linearly interpolated color, truncated (not rounded)
/// toward the starting stop's value: the exact integer
/// `floor(c0 + (tn / td) * (c1 - c0))`, or `c0` itself over a zero-length
/// segment.
pub open spec fn spec_channel(c0: u8, c1: u8, tn: int, td: int) -> u8 {
    if td <= 0 {
        c0
    } else if c1 >= c0 {
        (c0 + (tn * (c1 - c0)) / td) as u8
    } else {
        (c0 - (tn * (c0 - c1) + td - 1) / td) as u8
    }
}

pub open spec fn spec_blend(s0: GradientStop, s1: GradientStop, tn: int, td: int) -> Rgb8 {
    (Rgb8 {
        r: spec_channel(s0.color.r, s1.color.r, tn, td),
        g: spec_channel(s0.color.g, s1.color.g, tn, td),
        b: spec_channel(s0.color.b, s1.color.b, tn, td),
    })
}

/// Color of LUT slot `i` of `size`, read off a sorted stop list: clamp to
/// the endpoint stops outside their range, otherwise interpolate within the
/// first bracketing pair.
pub open spec fn spec_lut_color(s: Seq<GradientStop>, i: int, size: int) -> Rgb8 {
    let d = size - 1;
    let pn = i * 1000;
    if s.len() == 1 {
        s[0].color
    } else if pn < s[0].position * d {
        s[0].color
    } else if pn > s[s.len() - 1].position * d {
        s[s.len() - 1].color
    } else {
        let j = spec_bracket(s, pn, d, 0);
        let tn = pn - s[j].position * d;
        let td = (s[j + 1].position - s[j].position) * d;
        spec_blend(s[j], s[j + 1], tn, td)
    }
}

/// Parse the colors of a stop list, keeping encounter order.
pub fn to_gradient_stops(stops: &Vec<ColorStop>) -> (r: Vec<GradientStop>)
    ensures
        r@ == spec_gradient_stops(stops@),
{
    let mut out: Vec<GradientStop> = Vec::new();
    let mut i: usize = 0;
    while i < stops.len()
        invariant
            i <= stops@.len(),
            out@ == spec_gradient_stops(stops@.take(i as int)),
        decreases stops@.len() - i,
    {
        let color = hex_to_rgb(stops[i].color.as_str());
        out.push(GradientStop { position: stops[i].position, color });
        proof {
            assert(out@ =~= spec_gradient_stops(stops@.take(i + 1)));
        }
        i += 1;
    }
    proof {
        assert(stops@.take(stops@.len() as int) =~= stops@);
    }
    out
}

/// Inserting into a sorted list keeps it sorted.
proof fn lemma_insert_stop_sorted(s: Seq<GradientStop>, x: GradientStop)
    requires
        spec_stops_sorted(s),
    ensures
        spec_insert_stop(s, x).len() == s.len() + 1,
        spec_stops_sorted(spec_insert_stop(s, x)),
    decreases s.len(),
{
    if s.len() == 0 {
    } else if s[0].position <= x.position {
        assert forall|i: int, j: int|
            0 <= i <= j < s.drop_first().len() implies s.drop_first()[i].position
            <= s.drop_first()[j].position by {
            assert(s.drop_first()[i] == s[i + 1] && s.drop_first()[j] == s[j + 1]);
        }
        lemma_insert_stop_sorted(s.drop_first(), x);
        let r = seq![s[0]] + spec_insert_stop(s.drop_first(), x);
        assert forall|i: int, j: int| 0 <= i <= j < r.len() implies r[i].position
            <= r[j].position by {
            if i == 0 && j > 0 {
                lemma_insert_stop_low(s.drop_first(), x, j - 1);
            }
        }
    }
}

/// Every element of an insertion result is bounded below by the smaller of
/// the inserted element and the list's elements; stated through the head
/// case the sortedness proof needs.
proof fn lemma_insert_stop_low(s: Seq<GradientStop>, x: GradientStop, k: int)
    requires
        0 <= k < spec_insert_stop(s, x).len(),
    ensures
        spec_insert_stop(s, x)[k] == x || exists|t: int|
            0 <= t < s.len() && spec_insert_stop(s, x)[k] == s[t],
    decreases s.len(),
{
    if s.len() == 0 {
    } else if s[0].position <= x.position {
        if k > 0 {
            lemma_insert_stop_low(s.drop_first(), x, k - 1);
            if spec_insert_stop(s, x)[k] != x {
                let t = choose|t: int|
                    0 <= t < s.drop_first().len() && spec_insert_stop(s.drop_first(), x)[k - 1]
                        == s.drop_first()[t];
                assert(s.drop_first()[t] == s[t + 1]);
            }
        }
    }
}

/// Inserting at the index the scan found is the stable insertion.
proof fn lemma_insert_stop_at(s: Seq<GradientStop>, x: GradientStop, j: int)
    requires
        0 <= j <= s.len(),
        forall|t: int| 0 <= t < j ==> (#[trigger] s[t]).position <= x.position,
        j < s.len() ==> s[j].position > x.position,
    ensures
        spec_insert_stop(s, x) == s.insert(j, x),
    decreases s.len(),
{
    if s.len() == 0 {
        assert(spec_insert_stop(s, x) =~= s.insert(0, x));
    } else if j == 0 {
        assert(s[0].position > x.position);
        assert(spec_insert_stop(s, x) =~= s.insert(0, x));
    } else {
        assert(s[0].position <= x.position);
        assert forall|t: int| 0 <= t < j - 1 implies (#[trigger] s.drop_first()[t]).position
            <= x.position by {
            assert(s.drop_first()[t] == s[t + 1]);
        }
        assert(j - 1 < s.drop_first().len() ==> s.drop_first()[j - 1].position > x.position);
        lemma_insert_stop_at(s.drop_first(), x, j - 1);
        assert(seq![s[0]] + s.drop_first().insert(j - 1, x) =~= s.insert(j, x));
    }
}

/// Stable sort of parsed gradient stops, ascending by position; stops of
/// equal position keep their encounter order.
pub fn sort_gradient_stops(stops: &Vec<GradientStop>) -> (r: Vec<GradientStop>)
    ensures
        r@ == spec_sort_stops(stops@),
        r@.len() == stops@.len(),
        spec_stops_sorted(r@),
{
    let mut out: Vec<GradientStop> = Vec::new();
    let mut i: usize = 0;
    while i < stops.len()
        invariant
            i <= stops@.len(),
            out@ == spec_sort_stops(stops@.take(i as int)),
            out@.len() == i,
            spec_stops_sorted(out@),
        decreases stops@.len() - i,
    {
        let x = stops[i];
        let mut j: usize = 0;
        while j < out.len() && out[j].position <= x.position
            invariant
                j <= out@.len(),
                forall|t: int| 0 <= t < j ==> (#[trigger] out@[t]).position <= x.position,
            decreases out@.len() - j,
        {
            j += 1;
        }
        proof {
            lemma_insert_stop_at(out@, x, j as int);
            lemma_insert_stop_sorted(out@, x);
            assert(stops@.take(i + 1).drop_last() =~= stops@.take(i as int));
            assert(stops@.take(i + 1).last() == stops@[i as int]);
        }
        out.insert(j, x);
        i += 1;
    }
    proof {
        assert(stops@.take(stops@.len() as int) =~= stops@);
    }
    out
}

/// The first-match bracket scan returns the window where the scan stopped.
proof fn lemma_bracket_from(s: Seq<GradientStop>, pn: int, d: int, lo: int, j: int)
    requires
        0 <= lo <= j <= s.len() - 2,
        forall|t: int| lo <= t < j ==> !spec_window_brackets(s, pn, d, t),
        j == s.len() - 2 || spec_window_brackets(s, pn, d, j),
    ensures
        spec_bracket(s, pn, d, lo) == j,
    decreases j - lo,
{
    if lo < j {
        lemma_bracket_from(s, pn, d, lo + 1, j);
    }
}

/// One channel of a blended color; exact integer interpolation.
fn channel_value(c0: u8, c1: u8, tn: u128, td: u128) -> (r: u8)
    requires
        tn <= td,
        td <= 0x1_0000_0000_0000_0000_0000_0000,
    ensures
        r == spec_channel(c0, c1, tn as int, td as int),
{
    if td == 0 {
        c0
    } else if c1 >= c0 {
        let diff: u128 = (c1 - c0) as u128;
        proof {
            vstd::arithmetic::mul::lemma_mul_inequality(tn as int, td as int, diff as int);
            vstd::arithmetic::div_mod::lemma_multiply_divide_le(
                (tn as int) * (diff as int),
                td as int,
                diff as int,
            );
            vstd::arithmetic::mul::lemma_mul_nonnegative(tn as int, diff as int);
            vstd::arithmetic::div_mod::lemma_div_pos_is_pos(
                (tn as int) * (diff as int),
                td as int,
            );
            vstd::arithmetic::mul::lemma_mul_upper_bound(
                tn as int,
                0x1_0000_0000_0000_0000_0000_0000,
                diff as int,
                255,
            );
        }
        let q: u128 = (tn * diff) / td;
        c0 + (q as u8)
    } else {
        let diff: u128 = (c0 - c1) as u128;
        proof {
            vstd::arithmetic::mul::lemma_mul_inequality(tn as int, td as int, diff as int);
            vstd::arithmetic::div_mod::lemma_div_is_ordered(
                (tn as int) * (diff as int) + (td as int) - 1,
                (td as int) * (diff as int) + (td as int) - 1,
                td as int,
            );
            vstd::arithmetic::div_mod::lemma_hoist_over_denominator(
                (td as int) - 1,
                diff as int,
                td as nat,
            );
            vstd::arithmetic::div_mod::lemma_basic_div((td as int) - 1, td as int);
            vstd::arithmetic::mul::lemma_mul_is_commutative(td as int, diff as int);
            vstd::arithmetic::mul::lemma_mul_nonnegative(tn as int, diff as int);
            vstd::arithmetic::div_mod::lemma_div_pos_is_pos(
                (tn as int) * (diff as int) + (td as int) - 1,
                td as int,
            );
            vstd::arithmetic::mul::lemma_mul_upper_bound(
                tn as int,
                0x1_0000_0000_0000_0000_0000_0000,
                diff as int,
                255,
            );
        }
        let q: u128 = (tn * diff + td - 1) / td;
        c0 - (q as u8)
    }
}

/// Color of one LUT slot, read off the sorted stop list.
fn lut_slot_color(sorted: &Vec<GradientStop>, i: usize, size: usize) -> (r: Rgb8)
    requires
        sorted@.len() >= 1,
        spec_stops_sorted(sorted@),
        size >= 2,
        i < size,
    ensures
        r == spec_lut_color(sorted@, i as int, size as int),
{
    let n = sorted.len();
    let dd: u128 = (size - 1) as u128;
    let pn: u128 = (i as u128) * 1000;
    proof {
        assert forall|t: int| 0 <= t < n implies 0 <= ((#[trigger] sorted@[t]).position as int)
            * (dd as int) <= 0xFFFF_FFFF * 0xFFFF_FFFF_FFFF_FFFF by {
            vstd::arithmetic::mul::lemma_mul_upper_bound(
                sorted@[t].position as int,
                0xFFFF_FFFF,
                dd as int,
                0xFFFF_FFFF_FFFF_FFFF,
            );
            vstd::arithmetic::mul::lemma_mul_nonnegative(
                sorted@[t].position as int,
                dd as int,
            );
        }
    }
    if n == 1 {
        return sorted[0].color;
    }
    let p_first: u128 = (sorted[0].position as u128) * dd;
    let p_last: u128 = (sorted[n - 1].position as u128) * dd;
    if pn < p_first {
        return sorted[0].color;
    }
    if pn > p_last {
        return sorted[n - 1].color;
    }
    let mut j: usize = 0;
    while j < n - 2 && !((sorted[j].position as u128) * dd <= pn && pn <= (sorted[j
        + 1].position as u128) * dd)
        invariant
            n == sorted@.len(),
            n >= 2,
            spec_stops_sorted(sorted@),
            dd == size - 1,
            size >= 2,
            pn == (i as int) * 1000,
            j <= n - 2,
            forall|t: int|
                0 <= t < n ==> 0 <= ((#[trigger] sorted@[t]).position as int) * (dd as int)
                    <= 0xFFFF_FFFF * 0xFFFF_FFFF_FFFF_FFFF,
            forall|t: int| 0 <= t < j ==> !spec_window_brackets(sorted@, pn as int, dd as int, t),
            pn >= sorted@[j as int].position * (dd as int),
            pn <= sorted@[n - 1].position * (dd as int),
        decreases n - j,
    {
        j += 1;
    }
    proof {
        lemma_bracket_from(sorted@, pn as int, dd as int, 0, j as int);
    }
    let s0 = sorted[j];
    let s1 = sorted[j + 1];
    assert(s0.position <= s1.position);
    let tn: u128 = pn - (s0.position as u128) * dd;
    proof {
        vstd::arithmetic::mul::lemma_mul_is_distributive_sub_other_way(
            dd as int,
            s1.position as int,
            s0.position as int,
        );
        vstd::arithmetic::mul::lemma_mul_upper_bound(
            (s1.position - s0.position) as int,
            0xFFFF_FFFF,
            dd as int,
            0xFFFF_FFFF_FFFF_FFFF,
        );
        vstd::arithmetic::mul::lemma_mul_nonnegative(
            (s1.position - s0.position) as int,
            dd as int,
        );
    }
    let td: u128 = ((s1.position - s0.position) as u128) * dd;
    Rgb8 {
        r: channel_value(s0.color.r, s1.color.r, tn, td),
        g: channel_value(s0.color.g, s1.color.g, tn, td),
        b: channel_value(s0.color.b, s1.color.b, tn, td),
    }
}

/// Gradient lookup table: `size` colors read off the stop list after it is
/// normalized (colors parsed, stops stably sorted ascending by position).
/// Every normalized position maps to exactly one color: positions outside
/// the stops' range clamp to the nearest endpoint stop.
pub fn create_gradient_map(stops: &Vec<ColorStop>, size: usize) -> (r: Vec<Rgb8>)
    requires
        stops@.len() >= 1,
        size >= 2,
    ensures
        r@.len() == size,
        forall|i: int|
            0 <= i < size ==> #[trigger] r@[i] == spec_lut_color(
                spec_sort_stops(spec_gradient_stops(stops@)),
                i,
                size as int,
            ),
{
    let gstops = to_gradient_stops(stops);
    let sorted = sort_gradient_stops(&gstops);
    let mut out: Vec<Rgb8> = Vec::new();
    let mut i: usize = 0;
    while i < size
        invariant
            sorted@ == spec_sort_stops(spec_gradient_stops(stops@)),
            sorted@.len() == stops@.len() >= 1,
            spec_stops_sorted(sorted@),
            size >= 2,
            i <= size,
            out@.len() == i,
            forall|t: int|
                0 <= t < i ==> #[trigger] out@[t] == spec_lut_color(
                    sorted@,
                    t,
                    size as int,
                ),
        decreases size - i,
    {
        let px = lut_slot_color(&sorted, i, size);
        out.push(px);
        i += 1;
    }
    out
}

/// A blend at interpolation factor 0 is the starting stop's color.
proof fn lemma_channel_zero(c0: u8, c1: u8, td: int)
    requires
        td >= 0,
    ensures
        spec_channel(c0, c1, 0, td) == c0,
{
    if td > 0 {
        if c1 >= c0 {
            assert(0 * (c1 - c0) == 0);
            vstd::arithmetic::div_mod::lemma_div_of0(td);
        } else {
            assert(0 * (c0 - c1) == 0);
            vstd::arithmetic::div_mod::lemma_basic_div(td - 1, td);
        }
    }
}

/// A blend at interpolation factor 1 is the ending stop's color, exactly.
proof fn lemma_channel_full(c0: u8, c1: u8, td: int)
    requires
        td > 0,
    ensures
        spec_channel(c0, c1, td, td) == c1,
{
    if c1 >= c0 {
        vstd::arithmetic::mul::lemma_mul_is_commutative(td, c1 - c0);
        vstd::arithmetic::div_mod::lemma_div_multiples_vanish((c1 - c0) as int, td);
    } else {
        vstd::arithmetic::div_mod::lemma_hoist_over_denominator(td - 1, (c0 - c1) as int, td as nat);
        vstd::arithmetic::div_mod::lemma_basic_div(td - 1, td);
        vstd::arithmetic::mul::lemma_mul_is_commutative(td, c0 - c1);
    }
}

/// LUT endpoint law. Over a sorted stop list that starts at position 0 and
/// ends at position 1000 — with the top position held by the final stop
/// alone — the first LUT slot takes exactly the first stop's color, and the
/// last slot exactly the last stop's, whatever the table size.
pub proof fn lemma_lut_endpoints(s: Seq<GradientStop>, size: int)
    requires
        size >= 2,
        s.len() >= 2,
        spec_stops_sorted(s),
        s[0].position == 0,
        s[s.len() - 1].position == 1000,
        forall|j: int| 0 <= j < s.len() - 1 ==> (#[trigger] s[j]).position < 1000,
    ensures
        spec_lut_color(s, 0, size) == s[0].color,
        spec_lut_color(s, size - 1, size) == s[s.len() - 1].color,
{
    let d = size - 1;
    let n = s.len();
    // Slot 0 sits exactly on the first stop: the first window brackets it
    // with interpolation factor 0.
    assert(s[0].position * d == 0) by (nonlinear_arith)
        requires s[0].position == 0;
    vstd::arithmetic::mul::lemma_mul_nonnegative(s[1].position as int, d);
    assert(1000 * d >= 1000);
    assert(spec_window_brackets(s, 0, d, 0));
    lemma_bracket_from(s, 0, d, 0, 0);
    let td0 = (s[1].position - s[0].position) * d;
    vstd::arithmetic::mul::lemma_mul_nonnegative((s[1].position - s[0].position) as int, d);
    lemma_channel_zero(s[0].color.r, s[1].color.r, td0);
    lemma_channel_zero(s[0].color.g, s[1].color.g, td0);
    lemma_channel_zero(s[0].color.b, s[1].color.b, td0);
    assert(spec_lut_color(s, 0, size) == s[0].color);
    // The last slot sits exactly on the last stop: every earlier window
    // tops out strictly below it, so the scan lands on the final pair with
    // interpolation factor 1.
    let pn = (size - 1) * 1000;
    assert(pn == 1000 * d) by (nonlinear_arith)
        requires pn == (size - 1) * 1000, d == size - 1;
    vstd::arithmetic::mul::lemma_mul_nonnegative(s[0].position as int, d);
    assert forall|t: int| 0 <= t < n - 2 implies !spec_window_brackets(s, pn, d, t) by {
        assert(s[t + 1].position < 1000);
        vstd::arithmetic::mul::lemma_mul_strict_inequality(s[t + 1].position as int, 1000, d);
    }
    lemma_bracket_from(s, pn, d, 0, n - 2);
    let p0 = s[n - 2].position as int;
    vstd::arithmetic::mul::lemma_mul_is_distributive_sub_other_way(d, 1000, p0);
    let td1 = (1000 - p0) * d;
    assert(td1 > 0) by (nonlinear_arith)
        requires td1 == (1000 - p0) * d, 0 <= p0 < 1000, d >= 1;
    assert(pn - s[n - 2].position * d == td1);
    lemma_channel_full(s[n - 2].color.r, s[n - 1].color.r, td1);
    lemma_channel_full(s[n - 2].color.g, s[n - 1].color.g, td1);
    lemma_channel_full(s[n - 2].color.b, s[n - 1].color.b, td1);
    assert(spec_lut_color(s, size - 1, size) == s[n - 1].color);
}

} // verus!
