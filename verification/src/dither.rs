//! Dithering engines over the pixel grid: a nearest-palette-color matcher,
//! a grayscale threshold quantizer, an error-diffusion engine driven by a
//! 3-row weight kernel, and an ordered (threshold-matrix) engine.
//!
//! All channel arithmetic during diffusion is carried in signed 32-bit
//! integers with wrapping semantics, and the error scaling divides with
//! truncation toward zero, exactly as the specifications below state.

use vstd::prelude::*;

use crate::bmp::{Bmp, Pixel};

verus! {

/// Signed 32-bit wrapping addition.
pub open spec fn wadd(a: i32, b: i32) -> i32 {
    vstd::wrapping::i32_specs::wrapping_add(a, b)
}

/// Signed 32-bit wrapping subtraction.
pub open spec fn wsub(a: i32, b: i32) -> i32 {
    vstd::wrapping::i32_specs::wrapping_sub(a, b)
}

/// Signed 32-bit wrapping multiplication.
pub open spec fn wmul(a: i32, b: i32) -> i32 {
    vstd::wrapping::i32_specs::wrapping_mul(a, b)
}

/// Division truncating toward zero, for a positive divisor.
pub open spec fn tdiv(a: int, d: int) -> int
    recommends
        d >= 1,
{
    if a >= 0 {
        a / d
    } else {
        -((-a) / d)
    }
}

/// Division truncating toward zero on signed 32-bit values. With a positive
/// divisor the result magnitude never exceeds the dividend's, so no wrapping
/// can occur.
pub open spec fn tdiv32(a: i32, d: i32) -> i32
    recommends
        d >= 1,
{
    tdiv(a as int, d as int) as i32
}

/// Componentwise wrapping addition of two channel triples.
pub open spec fn s_add(a: (i32, i32, i32), b: (i32, i32, i32)) -> (i32, i32, i32) {
    (wadd(a.0, b.0), wadd(a.1, b.1), wadd(a.2, b.2))
}

/// Componentwise wrapping subtraction of two channel triples.
pub open spec fn s_sub(a: (i32, i32, i32), b: (i32, i32, i32)) -> (i32, i32, i32) {
    (wsub(a.0, b.0), wsub(a.1, b.1), wsub(a.2, b.2))
}

/// A channel triple scaled by a weight, wrapping componentwise.
pub open spec fn s_scale(t: (i32, i32, i32), v: i32) -> (i32, i32, i32) {
    (wmul(t.0, v), wmul(t.1, v), wmul(t.2, v))
}

/// A channel triple divided by a positive divisor, truncating toward zero.
pub open spec fn s_div(t: (i32, i32, i32), v: i32) -> (i32, i32, i32)
    recommends
        v >= 1,
{
    (tdiv32(t.0, v), tdiv32(t.1, v), tdiv32(t.2, v))
}

/// The squared Euclidean distance between two channel triples, computed in
/// wrapping 32-bit arithmetic.
pub open spec fn s_dist2(a: (i32, i32, i32), b: (i32, i32, i32)) -> i32 {
    let d0 = wsub(a.0, b.0);
    let d1 = wsub(a.1, b.1);
    let d2 = wsub(a.2, b.2);
    wadd(wadd(wmul(d0, d0), wmul(d1, d1)), wmul(d2, d2))
}

/// Componentwise wrapping addition of two channel triples.
pub fn px_add(a: &(i32, i32, i32), b: &(i32, i32, i32)) -> (r: (i32, i32, i32))
    ensures
        r == s_add(*a, *b),
{
    (a.0.wrapping_add(b.0), a.1.wrapping_add(b.1), a.2.wrapping_add(b.2))
}

/// Componentwise wrapping subtraction of two channel triples.
pub fn px_sub(a: &(i32, i32, i32), b: &(i32, i32, i32)) -> (r: (i32, i32, i32))
    ensures
        r == s_sub(*a, *b),
{
    (a.0.wrapping_sub(b.0), a.1.wrapping_sub(b.1), a.2.wrapping_sub(b.2))
}

/// A channel triple scaled by a weight, wrapping componentwise.
pub fn px_scale(t: &(i32, i32, i32), v: i32) -> (r: (i32, i32, i32))
    ensures
        r == s_scale(*t, v),
{
    (t.0.wrapping_mul(v), t.1.wrapping_mul(v), t.2.wrapping_mul(v))
}

/// One signed division truncating toward zero, for a positive divisor.
fn div_trunc(a: i32, d: i32) -> (r: i32)
    requires
        d >= 1,
    ensures
        r == tdiv32(a, d),
{
    proof {
        if a >= 0 {
            vstd::arithmetic::div_mod::lemma_div_pos_is_pos(a as int, d as int);
            vstd::arithmetic::div_mod::lemma_div_nonincreasing(a as int, d as int);
        } else {
            vstd::arithmetic::div_mod::lemma_div_pos_is_pos(-(a as int), d as int);
            vstd::arithmetic::div_mod::lemma_div_nonincreasing(-(a as int), d as int);
        }
    }
    match a.checked_div(d) {
        Some(q) => q,
        None => {
            proof {
                assert(false);
            }
            0
        },
    }
}

/// A channel triple divided by a positive divisor, truncating toward zero.
pub fn px_div(t: &(i32, i32, i32), v: i32) -> (r: (i32, i32, i32))
    requires
        v >= 1,
    ensures
        r == s_div(*t, v),
{
    (div_trunc(t.0, v), div_trunc(t.1, v), div_trunc(t.2, v))
}

/// The squared Euclidean distance between two channel triples, computed in
/// wrapping 32-bit arithmetic. No square root is taken: squared distance
/// orders candidates just as well.
pub fn dist2(a: &(i32, i32, i32), b: &(i32, i32, i32)) -> (r: i32)
    ensures
        r == s_dist2(*a, *b),
{
    let d0 = a.0.wrapping_sub(b.0);
    let d1 = a.1.wrapping_sub(b.1);
    let d2 = a.2.wrapping_sub(b.2);
    d0.wrapping_mul(d0).wrapping_add(d1.wrapping_mul(d1)).wrapping_add(d2.wrapping_mul(d2))
}

/// The rest of the left-to-right scan for the nearest palette entry: `best`
/// is the entry to beat, at distance `best_d`, and entries from `i` on are
/// still to be examined. A later entry replaces `best` only when its
/// distance is strictly smaller, so the first minimal entry wins ties.
pub open spec fn s_closest_from(
    p: (i32, i32, i32),
    colors: Seq<Pixel>,
    i: int,
    best: Pixel,
    best_d: i32,
) -> Pixel
    decreases colors.len() - i,
{
    if i < 0 || i >= colors.len() {
        best
    } else {
        let d = s_dist2(p, colors[i].spec_tuple());
        if d < best_d {
            s_closest_from(p, colors, i + 1, colors[i], d)
        } else {
            s_closest_from(p, colors, i + 1, best, best_d)
        }
    }
}

/// The first palette entry with minimal squared distance to `p`.
pub open spec fn s_closest(p: (i32, i32, i32), colors: Seq<Pixel>) -> Pixel
    recommends
        colors.len() >= 1,
{
    s_closest_from(p, colors, 1, colors[0], s_dist2(p, colors[0].spec_tuple()))
}

/// The first palette entry with minimal squared distance to the candidate
/// color, which may carry out-of-range or negative components since it
/// arrives pre-quantization from the diffusion engine.
pub fn closest_color(p: &(i32, i32, i32), colors: &Vec<Pixel>) -> (r: Pixel)
    requires
        colors@.len() >= 1,
    ensures
        r == s_closest(*p, colors@),
{
    let mut closest = colors[0];
    let mut dist = dist2(p, &colors[0].as_tuple());
    let mut i: usize = 1;
    while i < colors.len()
        invariant
            1 <= i <= colors@.len(),
            s_closest_from(*p, colors@, i as int, closest, dist) == s_closest(*p, colors@),
        decreases colors@.len() - i,
    {
        let d = dist2(p, &colors[i].as_tuple());
        if d < dist {
            dist = d;
            closest = colors[i];
        }
        i += 1;
    }
    closest
}

/// How a grayscale threshold quantizer reduces a channel triple to one
/// scalar.
#[derive(Clone, Copy, PartialEq, Eq, Structural, Debug)]
pub enum GrayFormula {
    /// The plain average of the three channels.
    Average,
    /// The perceptual luminance weighting (299 r + 587 g + 114 b) / 1000.
    Luminance,
    /// The desaturation midpoint (max + min) / 2 of the three channels.
    Lightness,
}

/// The larger of two signed values.
pub open spec fn max32(a: i32, b: i32) -> i32 {
    if a >= b {
        a
    } else {
        b
    }
}

/// The smaller of two signed values.
pub open spec fn min32(a: i32, b: i32) -> i32 {
    if a <= b {
        a
    } else {
        b
    }
}

/// The scalar a grayscale formula assigns to a channel triple, in wrapping
/// arithmetic.
pub open spec fn s_gray(f: GrayFormula, t: (i32, i32, i32)) -> i32 {
    match f {
        GrayFormula::Average => tdiv32(wadd(wadd(t.0, t.1), t.2), 3),
        GrayFormula::Luminance => tdiv32(
            wadd(wadd(wmul(t.0, 299), wmul(t.1, 587)), wmul(t.2, 114)),
            1000,
        ),
        GrayFormula::Lightness => tdiv32(
            wadd(max32(t.0, max32(t.1, t.2)), min32(t.0, min32(t.1, t.2))),
            2,
        ),
    }
}

/// The scalar a grayscale formula assigns to a channel triple.
pub fn gray_value(f: &GrayFormula, t: &(i32, i32, i32)) -> (r: i32)
    ensures
        r == s_gray(*f, *t),
{
    match f {
        GrayFormula::Average => div_trunc(t.0.wrapping_add(t.1).wrapping_add(t.2), 3),
        GrayFormula::Luminance => div_trunc(
            t.0.wrapping_mul(299).wrapping_add(t.1.wrapping_mul(587)).wrapping_add(
                t.2.wrapping_mul(114),
            ),
            1000,
        ),
        GrayFormula::Lightness => {
            let hi = if t.0 >= t.1 && t.0 >= t.2 {
                t.0
            } else if t.1 >= t.2 {
                t.1
            } else {
                t.2
            };
            let lo = if t.0 <= t.1 && t.0 <= t.2 {
                t.0
            } else if t.1 <= t.2 {
                t.1
            } else {
                t.2
            };
            div_trunc(hi.wrapping_add(lo), 2)
        },
    }
}

/// The quantization step an engine applies to each adjusted color: either
/// the nearest entry of a palette, or a grayscale threshold that maps
/// everything to pure black or pure white.
pub enum Quantizer<'a> {
    /// Nearest entry of a non-empty palette, first minimal entry on ties.
    Palette(&'a Vec<Pixel>),
    /// Reduce to a scalar with the formula; below the threshold the output
    /// is black, otherwise white.
    GrayThreshold(GrayFormula, i32),
}

impl<'a> Quantizer<'a> {
    /// A palette quantizer must hold at least one color.
    pub open spec fn wf(self) -> bool {
        match self {
            Quantizer::Palette(cs) => cs@.len() >= 1,
            Quantizer::GrayThreshold(_, _) => true,
        }
    }
}

/// The output color a quantizer assigns to an adjusted channel triple.
pub open spec fn s_quantize(q: Quantizer, adj: (i32, i32, i32)) -> Pixel
    recommends
        q.wf(),
{
    match q {
        Quantizer::Palette(cs) => s_closest(adj, cs@),
        Quantizer::GrayThreshold(f, cut) => if s_gray(f, adj) < cut {
            Pixel { r: 0u8, g: 0u8, b: 0u8 }
        } else {
            Pixel { r: 255u8, g: 255u8, b: 255u8 }
        },
    }
}

/// Applies the quantization step to one adjusted color.
pub fn quantize(q: &Quantizer, adj: &(i32, i32, i32)) -> (r: Pixel)
    requires
        q.wf(),
    ensures
        r == s_quantize(*q, *adj),
{
    match q {
        Quantizer::Palette(cs) => closest_color(adj, cs),
        Quantizer::GrayThreshold(f, cut) => {
            let g = gray_value(f, adj);
            if g < *cut {
                Pixel::black()
            } else {
                Pixel::white()
            }
        },
    }
}

/// An error-diffusion kernel: how much of each pixel's quantization error,
/// after division by `divisor`, is pushed to the two cells to the right on
/// the same row and to the five cells centered below on each of the next
/// two rows. A kernel never propagates error backward or upward.
#[derive(Clone, Copy, PartialEq, Eq, Structural, Debug)]
pub struct Kernel {
    pub right1: i32,
    pub right2: i32,
    pub below_l2: i32,
    pub below_l1: i32,
    pub below_c: i32,
    pub below_r1: i32,
    pub below_r2: i32,
    pub below2_l2: i32,
    pub below2_l1: i32,
    pub below2_c: i32,
    pub below2_r1: i32,
    pub below2_r2: i32,
    pub divisor: i32,
}

/// A row of zeroed error accumulators.
pub open spec fn zrow(w: int) -> Seq<(i32, i32, i32)> {
    Seq::new(w as nat, |i: int| (0i32, 0i32, 0i32))
}

/// The full state of the diffusion scan: the grid so far, the error row for
/// the line being corrected, the two rows below it, and the two same-row
/// carries for the next and next-next column.
#[verifier::ext_equal]
pub struct DiffState {
    pub grid: Seq<Seq<Pixel>>,
    pub cur: Seq<(i32, i32, i32)>,
    pub row1: Seq<(i32, i32, i32)>,
    pub row2: Seq<(i32, i32, i32)>,
    pub e1: (i32, i32, i32),
    pub e2: (i32, i32, i32),
}

/// One pixel step at column `x` of row `y`: adjust the stored color by the
/// accumulated carries, quantize it, store the result, and distribute the
/// divided error forward. Contributions that would land outside the row are
/// dropped.
pub open spec fn step_pixel(k: Kernel, q: Quantizer, st: DiffState, x: int, y: int) -> DiffState
    recommends
        k.divisor >= 1,
        q.wf(),
        0 <= x < st.grid.len(),
{
    let w = st.grid.len() as int;
    let pt = st.grid[x][y].spec_tuple();
    let adjusted = s_add(s_add(pt, st.e1), st.cur[x]);
    let newv = s_quantize(q, adjusted);
    let pe = s_sub(adjusted, newv.spec_tuple());
    let ie = s_div(pe, k.divisor);
    let e1n = s_add(s_scale(ie, k.right1), st.e2);
    let e2n = s_scale(ie, k.right2);
    let r1a = if x >= 2 {
        st.row1.update(x - 2, s_add(st.row1[x - 2], s_scale(ie, k.below_l2)))
    } else {
        st.row1
    };
    let r2a = if x >= 2 {
        st.row2.update(x - 2, s_add(st.row2[x - 2], s_scale(ie, k.below2_l2)))
    } else {
        st.row2
    };
    let r1b = if x >= 1 {
        r1a.update(x - 1, s_add(r1a[x - 1], s_scale(ie, k.below_l1)))
    } else {
        r1a
    };
    let r2b = if x >= 1 {
        r2a.update(x - 1, s_add(r2a[x - 1], s_scale(ie, k.below2_l1)))
    } else {
        r2a
    };
    let r1c = r1b.update(x, s_add(r1b[x], s_scale(ie, k.below_c)));
    let r2c = r2b.update(x, s_add(r2b[x], s_scale(ie, k.below2_c)));
    let r1d = if x + 1 < w {
        r1c.update(x + 1, s_add(r1c[x + 1], s_scale(ie, k.below_r1)))
    } else {
        r1c
    };
    let r2d = if x + 1 < w {
        r2c.update(x + 1, s_add(r2c[x + 1], s_scale(ie, k.below2_r1)))
    } else {
        r2c
    };
    let r1e = if x + 2 < w {
        r1d.update(x + 2, s_add(r1d[x + 2], s_scale(ie, k.below_r2)))
    } else {
        r1d
    };
    let r2e = if x + 2 < w {
        r2d.update(x + 2, s_add(r2d[x + 2], s_scale(ie, k.below2_r2)))
    } else {
        r2d
    };
    DiffState {
        grid: st.grid.update(x, st.grid[x].update(y, newv)),
        cur: st.cur,
        row1: r1e,
        row2: r2e,
        e1: e1n,
        e2: e2n,
    }
}

/// Entering row `y`: the same-row carries reset, the error rows rotate up
/// by one, and the new trailing row is zeroed.
pub open spec fn start_row(st: DiffState, w: int) -> DiffState {
    DiffState {
        grid: st.grid,
        cur: st.row1,
        row1: st.row2,
        row2: zrow(w),
        e1: (0i32, 0i32, 0i32),
        e2: (0i32, 0i32, 0i32),
    }
}

/// The scan of row `y` from column `x` to the end of the row.
pub open spec fn run_row(k: Kernel, q: Quantizer, st: DiffState, w: int, x: int, y: int) -> DiffState
    decreases w - x,
{
    if x < 0 || x >= w {
        st
    } else {
        run_row(k, q, step_pixel(k, q, st, x, y), w, x + 1, y)
    }
}

/// The scan of rows `y` to `h - 1`, each beginning with the buffer
/// rotation.
pub open spec fn run_rows(
    k: Kernel,
    q: Quantizer,
    st: DiffState,
    w: int,
    h: int,
    y: int,
) -> DiffState
    decreases h - y,
{
    if y < 0 || y >= h {
        st
    } else {
        run_rows(k, q, run_row(k, q, start_row(st, w), w, 0, y), w, h, y + 1)
    }
}

/// The grid after a full error-diffusion pass over a `grid.len()` by `h`
/// image, starting from zeroed error buffers.
pub open spec fn s_diffuse(grid: Seq<Seq<Pixel>>, h: int, k: Kernel, q: Quantizer) -> Seq<
    Seq<Pixel>,
> {
    let w = grid.len() as int;
    run_rows(
        k,
        q,
        DiffState {
            grid,
            cur: zrow(w),
            row1: zrow(w),
            row2: zrow(w),
            e1: (0i32, 0i32, 0i32),
            e2: (0i32, 0i32, 0i32),
        },
        w,
        h,
        0,
    ).grid
}

/// A fresh row of `w` zeroed error accumulators.
fn zero_row(w: usize) -> (v: Vec<(i32, i32, i32)>)
    ensures
        v@ == zrow(w as int),
{
    let mut v: Vec<(i32, i32, i32)> = Vec::new();
    let mut i: usize = 0;
    while i < w
        invariant
            i <= w,
            v@.len() == i,
            forall|j: int| 0 <= j < i ==> v@[j] == (0i32, 0i32, 0i32),
        decreases w - i,
    {
        v.push((0i32, 0i32, 0i32));
        i += 1;
    }
    proof {
        assert(v@ =~= zrow(w as int));
    }
    v
}

/// One executable pixel step of the diffusion scan, mirroring
/// `step_pixel` exactly.
#[verifier::rlimit(100)]
fn diffuse_step(
    bmp: &mut Bmp,
    kernel: &Kernel,
    quant: &Quantizer,
    err_cur_row: &Vec<(i32, i32, i32)>,
    row1: &mut Vec<(i32, i32, i32)>,
    row2: &mut Vec<(i32, i32, i32)>,
    e1: &mut (i32, i32, i32),
    e2: &mut (i32, i32, i32),
    x: usize,
    y: usize,
)
    requires
        old(bmp).wf(),
        kernel.divisor >= 1,
        quant.wf(),
        x < old(bmp).grid().len(),
        y < old(bmp).dib_header.height,
        err_cur_row@.len() == old(bmp).grid().len(),
        old(row1)@.len() == old(bmp).grid().len(),
        old(row2)@.len() == old(bmp).grid().len(),
    ensures
        final(bmp).wf(),
        final(bmp).bmp_header == old(bmp).bmp_header,
        final(bmp).dib_header == old(bmp).dib_header,
        (DiffState {
            grid: final(bmp).grid(),
            cur: err_cur_row@,
            row1: final(row1)@,
            row2: final(row2)@,
            e1: *final(e1),
            e2: *final(e2),
        }) == step_pixel(
            *kernel,
            *quant,
            (DiffState {
                grid: old(bmp).grid(),
                cur: err_cur_row@,
                row1: old(row1)@,
                row2: old(row2)@,
                e1: *old(e1),
                e2: *old(e2),
            }),
            x as int,
            y as int,
        ),
{
    let ghost st0 = (DiffState {
        grid: bmp.grid(),
        cur: err_cur_row@,
        row1: row1@,
        row2: row2@,
        e1: *e1,
        e2: *e2,
    });
    let w = bmp.width() as usize;
    let p = bmp.pixels[x][y];
    let pixel = p.as_tuple();
    let carry = err_cur_row[x];
    let adjusted = px_add(&px_add(&pixel, e1), &carry);
    let new_val = quantize(quant, &adjusted);
    let pixel_error = px_sub(&adjusted, &new_val.as_tuple());
    let individual_error = px_div(&pixel_error, kernel.divisor);
    *e1 = px_add(&px_scale(&individual_error, kernel.right1), e2);
    *e2 = px_scale(&individual_error, kernel.right2);
    if x >= 2 {
        let prev = row1[x - 2];
        let t = px_add(&prev, &px_scale(&individual_error, kernel.below_l2));
        row1[x - 2] = t;
        let prev = row2[x - 2];
        let t = px_add(&prev, &px_scale(&individual_error, kernel.below2_l2));
        row2[x - 2] = t;
    }
    if x >= 1 {
        let prev = row1[x - 1];
        let t = px_add(&prev, &px_scale(&individual_error, kernel.below_l1));
        row1[x - 1] = t;
        let prev = row2[x - 1];
        let t = px_add(&prev, &px_scale(&individual_error, kernel.below2_l1));
        row2[x - 1] = t;
    }
    let prev = row1[x];
    let t = px_add(&prev, &px_scale(&individual_error, kernel.below_c));
    row1[x] = t;
    let prev = row2[x];
    let t = px_add(&prev, &px_scale(&individual_error, kernel.below2_c));
    row2[x] = t;
    if w - x > 1 {
        let prev = row1[x + 1];
        let t = px_add(&prev, &px_scale(&individual_error, kernel.below_r1));
        row1[x + 1] = t;
        let prev = row2[x + 1];
        let t = px_add(&prev, &px_scale(&individual_error, kernel.below2_r1));
        row2[x + 1] = t;
    }
    if w - x > 2 {
        let prev = row1[x + 2];
        let t = px_add(&prev, &px_scale(&individual_error, kernel.below_r2));
        row1[x + 2] = t;
        let prev = row2[x + 2];
        let t = px_add(&prev, &px_scale(&individual_error, kernel.below2_r2));
        row2[x + 2] = t;
    }
    bmp.set_pixel(x, y, new_val);
    proof {
        let stp = step_pixel(*kernel, *quant, st0, x as int, y as int);
        assert(row1@ =~= stp.row1);
        assert(row2@ =~= stp.row2);
        assert(bmp.grid() =~= stp.grid);
        assert((DiffState {
            grid: bmp.grid(),
            cur: err_cur_row@,
            row1: row1@,
            row2: row2@,
            e1: *e1,
            e2: *e2,
        }) =~= stp);
    }
}

/// In-place quantization of every pixel to the output of the quantization
/// step, scanning rows top to bottom and columns left to right while the
/// quantization error of each pixel is carried forward according to the
/// kernel.
#[verifier::rlimit(100)]
pub fn matrix_dither(bmp: &mut Bmp, kernel: &Kernel, quant: &Quantizer)
    requires
        old(bmp).wf(),
        kernel.divisor >= 1,
        quant.wf(),
    ensures
        final(bmp).wf(),
        final(bmp).bmp_header == old(bmp).bmp_header,
        final(bmp).dib_header == old(bmp).dib_header,
        final(bmp).grid() == s_diffuse(
            old(bmp).grid(),
            old(bmp).dib_header.height as int,
            *kernel,
            *quant,
        ),
{
    let w = bmp.width() as usize;
    let h = bmp.height() as usize;
    let ghost total = s_diffuse(old(bmp).grid(), h as int, *kernel, *quant);
    let mut err_next_1: (i32, i32, i32) = (0, 0, 0);
    let mut err_next_2: (i32, i32, i32) = (0, 0, 0);
    let mut err_cur_row = zero_row(w);
    let mut err_next_row_1 = zero_row(w);
    let mut err_next_row_2 = zero_row(w);
    let mut y: usize = 0;
    while y < h
        invariant
            y <= h,
            kernel.divisor >= 1,
            quant.wf(),
            w == bmp.dib_header.width,
            h == bmp.dib_header.height,
            bmp.wf(),
            bmp.bmp_header == old(bmp).bmp_header,
            bmp.dib_header == old(bmp).dib_header,
            err_cur_row@.len() == w,
            err_next_row_1@.len() == w,
            err_next_row_2@.len() == w,
            run_rows(
                *kernel,
                *quant,
                (DiffState {
                    grid: bmp.grid(),
                    cur: err_cur_row@,
                    row1: err_next_row_1@,
                    row2: err_next_row_2@,
                    e1: err_next_1,
                    e2: err_next_2,
                }),
                w as int,
                h as int,
                y as int,
            ).grid == total,
        decreases h - y,
    {
        let ghost st_entry = (DiffState {
            grid: bmp.grid(),
            cur: err_cur_row@,
            row1: err_next_row_1@,
            row2: err_next_row_2@,
            e1: err_next_1,
            e2: err_next_2,
        });
        err_next_1 = (0, 0, 0);
        err_next_2 = (0, 0, 0);
        let row1_moved = err_next_row_1;
        let row2_moved = err_next_row_2;
        err_cur_row = row1_moved;
        err_next_row_1 = row2_moved;
        err_next_row_2 = zero_row(w);
        proof {
            let st_rot = (DiffState {
                grid: bmp.grid(),
                cur: err_cur_row@,
                row1: err_next_row_1@,
                row2: err_next_row_2@,
                e1: err_next_1,
                e2: err_next_2,
            });
            assert(st_rot =~= start_row(st_entry, w as int));
        }
        let mut x: usize = 0;
        while x < w
            invariant
                x <= w,
                y < h,
                kernel.divisor >= 1,
                quant.wf(),
                w == bmp.dib_header.width,
                h == bmp.dib_header.height,
                bmp.wf(),
                bmp.bmp_header == old(bmp).bmp_header,
                bmp.dib_header == old(bmp).dib_header,
                err_cur_row@.len() == w,
                err_next_row_1@.len() == w,
                err_next_row_2@.len() == w,
                run_rows(
                    *kernel,
                    *quant,
                    run_row(
                        *kernel,
                        *quant,
                        (DiffState {
                            grid: bmp.grid(),
                            cur: err_cur_row@,
                            row1: err_next_row_1@,
                            row2: err_next_row_2@,
                            e1: err_next_1,
                            e2: err_next_2,
                        }),
                        w as int,
                        x as int,
                        y as int,
                    ),
                    w as int,
                    h as int,
                    y as int + 1,
                ).grid == total,
            decreases w - x,
        {
            let ghost st0 = (DiffState {
                grid: bmp.grid(),
                cur: err_cur_row@,
                row1: err_next_row_1@,
                row2: err_next_row_2@,
                e1: err_next_1,
                e2: err_next_2,
            });
            diffuse_step(
                bmp,
                kernel,
                quant,
                &err_cur_row,
                &mut err_next_row_1,
                &mut err_next_row_2,
                &mut err_next_1,
                &mut err_next_2,
                x,
                y,
            );
            proof {
                let stp = step_pixel(*kernel, *quant, st0, x as int, y as int);
                assert(run_row(*kernel, *quant, st0, w as int, x as int, y as int) == run_row(
                    *kernel,
                    *quant,
                    stp,
                    w as int,
                    x as int + 1,
                    y as int,
                ));
            }
            x += 1;
        }
        proof {
            let st_done = (DiffState {
                grid: bmp.grid(),
                cur: err_cur_row@,
                row1: err_next_row_1@,
                row2: err_next_row_2@,
                e1: err_next_1,
                e2: err_next_2,
            });
            assert(run_row(*kernel, *quant, st_done, w as int, w as int, y as int) == st_done);
        }
        y += 1;
    }
    proof {
        assert(run_rows(
            *kernel,
            *quant,
            (DiffState {
                grid: bmp.grid(),
                cur: err_cur_row@,
                row1: err_next_row_1@,
                row2: err_next_row_2@,
                e1: err_next_1,
                e2: err_next_2,
            }),
            w as int,
            h as int,
            h as int,
        ).grid == bmp.grid());
    }
}

/// The weight table of the no-diffusion baseline: direct nearest-color quantization with zero forward weights kernel.
pub open spec fn closest_kernel() -> Kernel {
    Kernel {
        right1: 0i32,
        right2: 0i32,
        below_l2: 0i32,
        below_l1: 0i32,
        below_c: 0i32,
        below_r1: 0i32,
        below_r2: 0i32,
        below2_l2: 0i32,
        below2_l1: 0i32,
        below2_c: 0i32,
        below2_r1: 0i32,
        below2_r2: 0i32,
        divisor: 1i32,
    }
}

/// Error-diffusion dithering with the no-diffusion baseline: direct nearest-color quantization with zero forward weights kernel against a non-empty
/// palette.
pub fn closest_matrix_dither(bmp: &mut Bmp, colors: &Vec<Pixel>)
    requires
        old(bmp).wf(),
        colors@.len() >= 1,
    ensures
        final(bmp).wf(),
        final(bmp).bmp_header == old(bmp).bmp_header,
        final(bmp).dib_header == old(bmp).dib_header,
        final(bmp).grid() == s_diffuse(
            old(bmp).grid(),
            old(bmp).dib_header.height as int,
            closest_kernel(),
            Quantizer::Palette(colors),
        ),
{
    let k = Kernel {
        right1: 0i32,
        right2: 0i32,
        below_l2: 0i32,
        below_l1: 0i32,
        below_c: 0i32,
        below_r1: 0i32,
        below_r2: 0i32,
        below2_l2: 0i32,
        below2_l1: 0i32,
        below2_c: 0i32,
        below2_r1: 0i32,
        below2_r2: 0i32,
        divisor: 1i32,
    };
    let q = Quantizer::Palette(colors);
    matrix_dither(bmp, &k, &q);
}

/// The weight table of the full error push to the next pixel on the same row kernel.
pub open spec fn diffuse_kernel() -> Kernel {
    Kernel {
        right1: 1i32,
        right2: 0i32,
        below_l2: 0i32,
        below_l1: 0i32,
        below_c: 0i32,
        below_r1: 0i32,
        below_r2: 0i32,
        below2_l2: 0i32,
        below2_l1: 0i32,
        below2_c: 0i32,
        below2_r1: 0i32,
        below2_r2: 0i32,
        divisor: 1i32,
    }
}

/// Error-diffusion dithering with the full error push to the next pixel on the same row kernel against a non-empty
/// palette.
pub fn diffuse_matrix_dither(bmp: &mut Bmp, colors: &Vec<Pixel>)
    requires
        old(bmp).wf(),
        colors@.len() >= 1,
    ensures
        final(bmp).wf(),
        final(bmp).bmp_header == old(bmp).bmp_header,
        final(bmp).dib_header == old(bmp).dib_header,
        final(bmp).grid() == s_diffuse(
            old(bmp).grid(),
            old(bmp).dib_header.height as int,
            diffuse_kernel(),
            Quantizer::Palette(colors),
        ),
{
    let k = Kernel {
        right1: 1i32,
        right2: 0i32,
        below_l2: 0i32,
        below_l1: 0i32,
        below_c: 0i32,
        below_r1: 0i32,
        below_r2: 0i32,
        below2_l2: 0i32,
        below2_l1: 0i32,
        below2_c: 0i32,
        below2_r1: 0i32,
        below2_r2: 0i32,
        divisor: 1i32,
    };
    let q = Quantizer::Palette(colors);
    matrix_dither(bmp, &k, &q);
}

/// The weight table of the Floyd-Steinberg kernel.
pub open spec fn floyd_kernel() -> Kernel {
    Kernel {
        right1: 7i32,
        right2: 0i32,
        below_l2: 0i32,
        below_l1: 3i32,
        below_c: 5i32,
        below_r1: 1i32,
        below_r2: 0i32,
        below2_l2: 0i32,
        below2_l1: 0i32,
        below2_c: 0i32,
        below2_r1: 0i32,
        below2_r2: 0i32,
        divisor: 16i32,
    }
}

/// Error-diffusion dithering with the Floyd-Steinberg kernel against a non-empty
/// palette.
pub fn floyd_matrix_dither(bmp: &mut Bmp, colors: &Vec<Pixel>)
    requires
        old(bmp).wf(),
        colors@.len() >= 1,
    ensures
        final(bmp).wf(),
        final(bmp).bmp_header == old(bmp).bmp_header,
        final(bmp).dib_header == old(bmp).dib_header,
        final(bmp).grid() == s_diffuse(
            old(bmp).grid(),
            old(bmp).dib_header.height as int,
            floyd_kernel(),
            Quantizer::Palette(colors),
        ),
{
    let k = Kernel {
        right1: 7i32,
        right2: 0i32,
        below_l2: 0i32,
        below_l1: 3i32,
        below_c: 5i32,
        below_r1: 1i32,
        below_r2: 0i32,
        below2_l2: 0i32,
        below2_l1: 0i32,
        below2_c: 0i32,
        below2_r1: 0i32,
        below2_r2: 0i32,
        divisor: 16i32,
    };
    let q = Quantizer::Palette(colors);
    matrix_dither(bmp, &k, &q);
}

/// The weight table of the the \"false\" Floyd-Steinberg variant kernel.
pub open spec fn false_floyd_kernel() -> Kernel {
    Kernel {
        right1: 3i32,
        right2: 0i32,
        below_l2: 0i32,
        below_l1: 0i32,
        below_c: 3i32,
        below_r1: 2i32,
        below_r2: 0i32,
        below2_l2: 0i32,
        below2_l1: 0i32,
        below2_c: 0i32,
        below2_r1: 0i32,
        below2_r2: 0i32,
        divisor: 8i32,
    }
}

/// Error-diffusion dithering with the the \"false\" Floyd-Steinberg variant kernel against a non-empty
/// palette.
pub fn false_floyd_matrix_dither(bmp: &mut Bmp, colors: &Vec<Pixel>)
    requires
        old(bmp).wf(),
        colors@.len() >= 1,
    ensures
        final(bmp).wf(),
        final(bmp).bmp_header == old(bmp).bmp_header,
        final(bmp).dib_header == old(bmp).dib_header,
        final(bmp).grid() == s_diffuse(
            old(bmp).grid(),
            old(bmp).dib_header.height as int,
            false_floyd_kernel(),
            Quantizer::Palette(colors),
        ),
{
    let k = Kernel {
        right1: 3i32,
        right2: 0i32,
        below_l2: 0i32,
        below_l1: 0i32,
        below_c: 3i32,
        below_r1: 2i32,
        below_r2: 0i32,
        below2_l2: 0i32,
        below2_l1: 0i32,
        below2_c: 0i32,
        below2_r1: 0i32,
        below2_r2: 0i32,
        divisor: 8i32,
    };
    let q = Quantizer::Palette(colors);
    matrix_dither(bmp, &k, &q);
}

/// The weight table of the Jarvis-Judice-Ninke kernel.
pub open spec fn jjn_kernel() -> Kernel {
    Kernel {
        right1: 7i32,
        right2: 5i32,
        below_l2: 3i32,
        below_l1: 5i32,
        below_c: 7i32,
        below_r1: 5i32,
        below_r2: 3i32,
        below2_l2: 1i32,
        below2_l1: 3i32,
        below2_c: 5i32,
        below2_r1: 3i32,
        below2_r2: 1i32,
        divisor: 48i32,
    }
}

/// Error-diffusion dithering with the Jarvis-Judice-Ninke kernel against a non-empty
/// palette.
pub fn jjn_matrix_dither(bmp: &mut Bmp, colors: &Vec<Pixel>)
    requires
        old(bmp).wf(),
        colors@.len() >= 1,
    ensures
        final(bmp).wf(),
        final(bmp).bmp_header == old(bmp).bmp_header,
        final(bmp).dib_header == old(bmp).dib_header,
        final(bmp).grid() == s_diffuse(
            old(bmp).grid(),
            old(bmp).dib_header.height as int,
            jjn_kernel(),
            Quantizer::Palette(colors),
        ),
{
    let k = Kernel {
        right1: 7i32,
        right2: 5i32,
        below_l2: 3i32,
        below_l1: 5i32,
        below_c: 7i32,
        below_r1: 5i32,
        below_r2: 3i32,
        below2_l2: 1i32,
        below2_l1: 3i32,
        below2_c: 5i32,
        below2_r1: 3i32,
        below2_r2: 1i32,
        divisor: 48i32,
    };
    let q = Quantizer::Palette(colors);
    matrix_dither(bmp, &k, &q);
}

/// The weight table of the Stucki kernel.
pub open spec fn stucki_kernel() -> Kernel {
    Kernel {
        right1: 8i32,
        right2: 4i32,
        below_l2: 2i32,
        below_l1: 4i32,
        below_c: 8i32,
        below_r1: 4i32,
        below_r2: 2i32,
        below2_l2: 1i32,
        below2_l1: 2i32,
        below2_c: 4i32,
        below2_r1: 2i32,
        below2_r2: 1i32,
        divisor: 42i32,
    }
}

/// Error-diffusion dithering with the Stucki kernel against a non-empty
/// palette.
pub fn stucki_matrix_dither(bmp: &mut Bmp, colors: &Vec<Pixel>)
    requires
        old(bmp).wf(),
        colors@.len() >= 1,
    ensures
        final(bmp).wf(),
        final(bmp).bmp_header == old(bmp).bmp_header,
        final(bmp).dib_header == old(bmp).dib_header,
        final(bmp).grid() == s_diffuse(
            old(bmp).grid(),
            old(bmp).dib_header.height as int,
            stucki_kernel(),
            Quantizer::Palette(colors),
        ),
{
    let k = Kernel {
        right1: 8i32,
        right2: 4i32,
        below_l2: 2i32,
        below_l1: 4i32,
        below_c: 8i32,
        below_r1: 4i32,
        below_r2: 2i32,
        below2_l2: 1i32,
        below2_l1: 2i32,
        below2_c: 4i32,
        below2_r1: 2i32,
        below2_r2: 1i32,
        divisor: 42i32,
    };
    let q = Quantizer::Palette(colors);
    matrix_dither(bmp, &k, &q);
}

/// The weight table of the Atkinson kernel.
pub open spec fn atkinson_kernel() -> Kernel {
    Kernel {
        right1: 1i32,
        right2: 1i32,
        below_l2: 0i32,
        below_l1: 1i32,
        below_c: 1i32,
        below_r1: 1i32,
        below_r2: 0i32,
        below2_l2: 0i32,
        below2_l1: 0i32,
        below2_c: 1i32,
        below2_r1: 0i32,
        below2_r2: 0i32,
        divisor: 8i32,
    }
}

/// Error-diffusion dithering with the Atkinson kernel against a non-empty
/// palette.
pub fn atkinson_matrix_dither(bmp: &mut Bmp, colors: &Vec<Pixel>)
    requires
        old(bmp).wf(),
        colors@.len() >= 1,
    ensures
        final(bmp).wf(),
        final(bmp).bmp_header == old(bmp).bmp_header,
        final(bmp).dib_header == old(bmp).dib_header,
        final(bmp).grid() == s_diffuse(
            old(bmp).grid(),
            old(bmp).dib_header.height as int,
            atkinson_kernel(),
            Quantizer::Palette(colors),
        ),
{
    let k = Kernel {
        right1: 1i32,
        right2: 1i32,
        below_l2: 0i32,
        below_l1: 1i32,
        below_c: 1i32,
        below_r1: 1i32,
        below_r2: 0i32,
        below2_l2: 0i32,
        below2_l1: 0i32,
        below2_c: 1i32,
        below2_r1: 0i32,
        below2_r2: 0i32,
        divisor: 8i32,
    };
    let q = Quantizer::Palette(colors);
    matrix_dither(bmp, &k, &q);
}

/// The weight table of the Burkes kernel.
pub open spec fn burkes_kernel() -> Kernel {
    Kernel {
        right1: 8i32,
        right2: 4i32,
        below_l2: 2i32,
        below_l1: 4i32,
        below_c: 8i32,
        below_r1: 4i32,
        below_r2: 2i32,
        below2_l2: 0i32,
        below2_l1: 0i32,
        below2_c: 0i32,
        below2_r1: 0i32,
        below2_r2: 0i32,
        divisor: 32i32,
    }
}

/// Error-diffusion dithering with the Burkes kernel against a non-empty
/// palette.
pub fn burkes_matrix_dither(bmp: &mut Bmp, colors: &Vec<Pixel>)
    requires
        old(bmp).wf(),
        colors@.len() >= 1,
    ensures
        final(bmp).wf(),
        final(bmp).bmp_header == old(bmp).bmp_header,
        final(bmp).dib_header == old(bmp).dib_header,
        final(bmp).grid() == s_diffuse(
            old(bmp).grid(),
            old(bmp).dib_header.height as int,
            burkes_kernel(),
            Quantizer::Palette(colors),
        ),
{
    let k = Kernel {
        right1: 8i32,
        right2: 4i32,
        below_l2: 2i32,
        below_l1: 4i32,
        below_c: 8i32,
        below_r1: 4i32,
        below_r2: 2i32,
        below2_l2: 0i32,
        below2_l1: 0i32,
        below2_c: 0i32,
        below2_r1: 0i32,
        below2_r2: 0i32,
        divisor: 32i32,
    };
    let q = Quantizer::Palette(colors);
    matrix_dither(bmp, &k, &q);
}

/// The weight table of the Sierra kernel.
pub open spec fn sierra_kernel() -> Kernel {
    Kernel {
        right1: 5i32,
        right2: 3i32,
        below_l2: 2i32,
        below_l1: 4i32,
        below_c: 5i32,
        below_r1: 4i32,
        below_r2: 2i32,
        below2_l2: 0i32,
        below2_l1: 2i32,
        below2_c: 3i32,
        below2_r1: 2i32,
        below2_r2: 0i32,
        divisor: 32i32,
    }
}

/// Error-diffusion dithering with the Sierra kernel against a non-empty
/// palette.
pub fn sierra_matrix_dither(bmp: &mut Bmp, colors: &Vec<Pixel>)
    requires
        old(bmp).wf(),
        colors@.len() >= 1,
    ensures
        final(bmp).wf(),
        final(bmp).bmp_header == old(bmp).bmp_header,
        final(bmp).dib_header == old(bmp).dib_header,
        final(bmp).grid() == s_diffuse(
            old(bmp).grid(),
            old(bmp).dib_header.height as int,
            sierra_kernel(),
            Quantizer::Palette(colors),
        ),
{
    let k = Kernel {
        right1: 5i32,
        right2: 3i32,
        below_l2: 2i32,
        below_l1: 4i32,
        below_c: 5i32,
        below_r1: 4i32,
        below_r2: 2i32,
        below2_l2: 0i32,
        below2_l1: 2i32,
        below2_c: 3i32,
        below2_r1: 2i32,
        below2_r2: 0i32,
        divisor: 32i32,
    };
    let q = Quantizer::Palette(colors);
    matrix_dither(bmp, &k, &q);
}

/// The weight table of the Sierra two-row kernel.
pub open spec fn sierra2_kernel() -> Kernel {
    Kernel {
        right1: 4i32,
        right2: 3i32,
        below_l2: 1i32,
        below_l1: 2i32,
        below_c: 3i32,
        below_r1: 2i32,
        below_r2: 1i32,
        below2_l2: 0i32,
        below2_l1: 0i32,
        below2_c: 0i32,
        below2_r1: 0i32,
        below2_r2: 0i32,
        divisor: 16i32,
    }
}

/// Error-diffusion dithering with the Sierra two-row kernel against a non-empty
/// palette.
pub fn sierra2_matrix_dither(bmp: &mut Bmp, colors: &Vec<Pixel>)
    requires
        old(bmp).wf(),
        colors@.len() >= 1,
    ensures
        final(bmp).wf(),
        final(bmp).bmp_header == old(bmp).bmp_header,
        final(bmp).dib_header == old(bmp).dib_header,
        final(bmp).grid() == s_diffuse(
            old(bmp).grid(),
            old(bmp).dib_header.height as int,
            sierra2_kernel(),
            Quantizer::Palette(colors),
        ),
{
    let k = Kernel {
        right1: 4i32,
        right2: 3i32,
        below_l2: 1i32,
        below_l1: 2i32,
        below_c: 3i32,
        below_r1: 2i32,
        below_r2: 1i32,
        below2_l2: 0i32,
        below2_l1: 0i32,
        below2_c: 0i32,
        below2_r1: 0i32,
        below2_r2: 0i32,
        divisor: 16i32,
    };
    let q = Quantizer::Palette(colors);
    matrix_dither(bmp, &k, &q);
}

/// The weight table of the Sierra lite kernel.
pub open spec fn sierra_lite_kernel() -> Kernel {
    Kernel {
        right1: 2i32,
        right2: 0i32,
        below_l2: 0i32,
        below_l1: 1i32,
        below_c: 1i32,
        below_r1: 0i32,
        below_r2: 0i32,
        below2_l2: 0i32,
        below2_l1: 0i32,
        below2_c: 0i32,
        below2_r1: 0i32,
        below2_r2: 0i32,
        divisor: 4i32,
    }
}

/// Error-diffusion dithering with the Sierra lite kernel against a non-empty
/// palette.
pub fn sierra_lite_matrix_dither(bmp: &mut Bmp, colors: &Vec<Pixel>)
    requires
        old(bmp).wf(),
        colors@.len() >= 1,
    ensures
        final(bmp).wf(),
        final(bmp).bmp_header == old(bmp).bmp_header,
        final(bmp).dib_header == old(bmp).dib_header,
        final(bmp).grid() == s_diffuse(
            old(bmp).grid(),
            old(bmp).dib_header.height as int,
            sierra_lite_kernel(),
            Quantizer::Palette(colors),
        ),
{
    let k = Kernel {
        right1: 2i32,
        right2: 0i32,
        below_l2: 0i32,
        below_l1: 1i32,
        below_c: 1i32,
        below_r1: 0i32,
        below_r2: 0i32,
        below2_l2: 0i32,
        below2_l1: 0i32,
        below2_c: 0i32,
        below2_r1: 0i32,
        below2_r2: 0i32,
        divisor: 4i32,
    };
    let q = Quantizer::Palette(colors);
    matrix_dither(bmp, &k, &q);
}

/// A threshold matrix as a sequence of rows of equal length, indexed
/// `m[x mod n][y mod n]`. The scaling factor n * n + 1 must fit a signed
/// 32-bit value.
pub open spec fn matrix_wf(m: Seq<Seq<i32>>) -> bool {
    &&& m.len() >= 1
    &&& forall|i: int| 0 <= i < m.len() ==> (#[trigger] m[i]).len() == m.len()
    &&& m.len() * m.len() + 1 <= i32::MAX
}

/// The rows of a threshold matrix as sequences.
pub open spec fn mat_view(m: Vec<Vec<i32>>) -> Seq<Seq<i32>> {
    Seq::new(m@.len(), |i: int| m@[i]@)
}

/// One ordered-dither step: the stored color is scaled by
/// (n * n + 1) / 255 per channel in integer arithmetic, multiplied by the
/// matrix entry at `(x mod n, y mod n)`, and quantized. No error is
/// carried.
pub open spec fn s_ordered_pixel(p: Pixel, x: int, y: int, m: Seq<Seq<i32>>, q: Quantizer) -> Pixel
    recommends
        matrix_wf(m),
        q.wf(),
        0 <= x,
        0 <= y,
{
    let n = m.len() as int;
    let factor = (n * n + 1) as i32;
    let v = m[x % n][y % n];
    let pv = s_scale(s_div(s_scale(p.spec_tuple(), factor), 255), v);
    s_quantize(q, pv)
}

/// The grid after an ordered-dither pass: every pixel quantized
/// independently through `s_ordered_pixel`.
pub open spec fn s_ordered(grid: Seq<Seq<Pixel>>, h: int, m: Seq<Seq<i32>>, q: Quantizer) -> Seq<
    Seq<Pixel>,
> {
    Seq::new(grid.len(), |x: int| Seq::new(h as nat, |y: int| s_ordered_pixel(grid[x][y], x, y, m, q)))
}

/// Stateless per-pixel quantization through a tileable threshold matrix,
/// with no error carry.
pub fn ordered_dither(bmp: &mut Bmp, matrix: &Vec<Vec<i32>>, quant: &Quantizer)
    requires
        old(bmp).wf(),
        quant.wf(),
        matrix_wf(mat_view(*matrix)),
    ensures
        final(bmp).wf(),
        final(bmp).bmp_header == old(bmp).bmp_header,
        final(bmp).dib_header == old(bmp).dib_header,
        final(bmp).grid() == s_ordered(
            old(bmp).grid(),
            old(bmp).dib_header.height as int,
            mat_view(*matrix),
            *quant,
        ),
{
    let size = matrix.len();
    let factor = (size * size + 1) as i32;
    let w = bmp.width() as usize;
    let h = bmp.height() as usize;
    let ghost g0 = old(bmp).grid();
    let ghost m = mat_view(*matrix);
    let mut y: usize = 0;
    while y < h
        invariant
            y <= h,
            quant.wf(),
            matrix_wf(m),
            m == mat_view(*matrix),
            g0 == old(bmp).grid(),
            size == matrix@.len(),
            factor == (size * size + 1) as i32,
            size * size + 1 <= i32::MAX,
            w == bmp.dib_header.width,
            h == bmp.dib_header.height,
            bmp.wf(),
            bmp.bmp_header == old(bmp).bmp_header,
            bmp.dib_header == old(bmp).dib_header,
            g0.len() == w,
            forall|xx: int, yy: int|
                0 <= xx < w && 0 <= yy < y ==> bmp.grid()[xx][yy] == s_ordered_pixel(
                    g0[xx][yy],
                    xx,
                    yy,
                    m,
                    *quant,
                ),
            forall|xx: int, yy: int|
                0 <= xx < w && y <= yy < h ==> bmp.grid()[xx][yy] == g0[xx][yy],
        decreases h - y,
    {
        let mut x: usize = 0;
        while x < w
            invariant
                x <= w,
                y < h,
                quant.wf(),
                matrix_wf(m),
                m == mat_view(*matrix),
                g0 == old(bmp).grid(),
                size == matrix@.len(),
                factor == (size * size + 1) as i32,
                size * size + 1 <= i32::MAX,
                w == bmp.dib_header.width,
                h == bmp.dib_header.height,
                bmp.wf(),
                bmp.bmp_header == old(bmp).bmp_header,
                bmp.dib_header == old(bmp).dib_header,
                g0.len() == w,
                forall|xx: int, yy: int|
                    0 <= xx < w && 0 <= yy < y ==> bmp.grid()[xx][yy] == s_ordered_pixel(
                        g0[xx][yy],
                        xx,
                        yy,
                        m,
                        *quant,
                    ),
                forall|xx: int|
                    0 <= xx < x ==> bmp.grid()[xx][y as int] == s_ordered_pixel(
                        g0[xx][y as int],
                        xx,
                        y as int,
                        m,
                        *quant,
                    ),
                forall|xx: int|
                    x <= xx < w ==> bmp.grid()[xx][y as int] == g0[xx][y as int],
                forall|xx: int, yy: int|
                    0 <= xx < w && y < yy < h ==> bmp.grid()[xx][yy] == g0[xx][yy],
            decreases w - x,
        {
            let p = bmp.pixels[x][y];
            let pt = p.as_tuple();
            proof {
                assert(size >= 1);
                assert(((x % size) as int) < m.len());
                assert(m[(x % size) as int].len() == m.len());
                assert(matrix@[(x % size) as int]@.len() == size);
            }
            let v = matrix[x % size][y % size];
            let pv = px_scale(&px_div(&px_scale(&pt, factor), 255), v);
            let new_val = quantize(quant, &pv);
            bmp.set_pixel(x, y, new_val);
            proof {
                assert(p == g0[x as int][y as int]);
                assert(v == m[x as int % size as int][y as int % size as int]);
                assert(bmp.grid()[x as int][y as int] == s_ordered_pixel(
                    g0[x as int][y as int],
                    x as int,
                    y as int,
                    m,
                    *quant,
                ));
            }
            x += 1;
        }
        y += 1;
    }
    proof {
        assert(bmp.grid() =~= s_ordered(g0, h as int, m, *quant)) by {
            assert forall|xx: int| 0 <= xx < w implies bmp.grid()[xx] =~= s_ordered(
                g0,
                h as int,
                m,
                *quant,
            )[xx] by {}
        }
    }
}

/// The 4 by 4 Bayer dispersed-dot threshold matrix.
pub open spec fn bayer4() -> Seq<Seq<i32>> {
    seq![
        seq![1i32, 9i32, 3i32, 11i32],
        seq![13i32, 5i32, 15i32, 7i32],
        seq![4i32, 12i32, 2i32, 10i32],
        seq![16i32, 8i32, 14i32, 6i32],
    ]
}

/// The 8 by 8 Bayer dispersed-dot threshold matrix.
pub open spec fn bayer8() -> Seq<Seq<i32>> {
    seq![
        seq![1i32, 49i32, 13i32, 61i32, 4i32, 52i32, 16i32, 64i32],
        seq![33i32, 17i32, 45i32, 29i32, 36i32, 20i32, 48i32, 32i32],
        seq![9i32, 57i32, 5i32, 53i32, 12i32, 60i32, 8i32, 56i32],
        seq![41i32, 25i32, 37i32, 21i32, 44i32, 28i32, 40i32, 24i32],
        seq![3i32, 51i32, 15i32, 63i32, 2i32, 50i32, 14i32, 62i32],
        seq![35i32, 19i32, 47i32, 31i32, 34i32, 18i32, 46i32, 30i32],
        seq![11i32, 59i32, 7i32, 55i32, 10i32, 58i32, 6i32, 54i32],
        seq![43i32, 27i32, 39i32, 23i32, 42i32, 26i32, 38i32, 22i32],
    ]
}

/// Ordered dithering with the 4 by 4 Bayer matrix against a non-empty
/// palette.
pub fn bayer_4x4(bmp: &mut Bmp, colors: &Vec<Pixel>)
    requires
        old(bmp).wf(),
        colors@.len() >= 1,
    ensures
        final(bmp).wf(),
        final(bmp).bmp_header == old(bmp).bmp_header,
        final(bmp).dib_header == old(bmp).dib_header,
        final(bmp).grid() == s_ordered(
            old(bmp).grid(),
            old(bmp).dib_header.height as int,
            bayer4(),
            Quantizer::Palette(colors),
        ),
{
    let mut matrix: Vec<Vec<i32>> = Vec::new();
    let mut row: Vec<i32> = Vec::new();
    row.push(1);
    row.push(9);
    row.push(3);
    row.push(11);
    matrix.push(row);
    let mut row: Vec<i32> = Vec::new();
    row.push(13);
    row.push(5);
    row.push(15);
    row.push(7);
    matrix.push(row);
    let mut row: Vec<i32> = Vec::new();
    row.push(4);
    row.push(12);
    row.push(2);
    row.push(10);
    matrix.push(row);
    let mut row: Vec<i32> = Vec::new();
    row.push(16);
    row.push(8);
    row.push(14);
    row.push(6);
    matrix.push(row);
    proof {
        assert(mat_view(matrix) =~= bayer4()) by {
            assert(matrix@[0]@ =~= bayer4()[0]);
            assert(matrix@[1]@ =~= bayer4()[1]);
            assert(matrix@[2]@ =~= bayer4()[2]);
            assert(matrix@[3]@ =~= bayer4()[3]);
        }
        assert(matrix_wf(bayer4()));
    }
    let q = Quantizer::Palette(colors);
    ordered_dither(bmp, &matrix, &q);
}

/// Ordered dithering with the 8 by 8 Bayer matrix against a non-empty
/// palette.
pub fn bayer_8x8(bmp: &mut Bmp, colors: &Vec<Pixel>)
    requires
        old(bmp).wf(),
        colors@.len() >= 1,
    ensures
        final(bmp).wf(),
        final(bmp).bmp_header == old(bmp).bmp_header,
        final(bmp).dib_header == old(bmp).dib_header,
        final(bmp).grid() == s_ordered(
            old(bmp).grid(),
            old(bmp).dib_header.height as int,
            bayer8(),
            Quantizer::Palette(colors),
        ),
{
    let mut matrix: Vec<Vec<i32>> = Vec::new();
    let mut row: Vec<i32> = Vec::new();
    row.push(1);
    row.push(49);
    row.push(13);
    row.push(61);
    row.push(4);
    row.push(52);
    row.push(16);
    row.push(64);
    matrix.push(row);
    let mut row: Vec<i32> = Vec::new();
    row.push(33);
    row.push(17);
    row.push(45);
    row.push(29);
    row.push(36);
    row.push(20);
    row.push(48);
    row.push(32);
    matrix.push(row);
    let mut row: Vec<i32> = Vec::new();
    row.push(9);
    row.push(57);
    row.push(5);
    row.push(53);
    row.push(12);
    row.push(60);
    row.push(8);
    row.push(56);
    matrix.push(row);
    let mut row: Vec<i32> = Vec::new();
    row.push(41);
    row.push(25);
    row.push(37);
    row.push(21);
    row.push(44);
    row.push(28);
    row.push(40);
    row.push(24);
    matrix.push(row);
    let mut row: Vec<i32> = Vec::new();
    row.push(3);
    row.push(51);
    row.push(15);
    row.push(63);
    row.push(2);
    row.push(50);
    row.push(14);
    row.push(62);
    matrix.push(row);
    let mut row: Vec<i32> = Vec::new();
    row.push(35);
    row.push(19);
    row.push(47);
    row.push(31);
    row.push(34);
    row.push(18);
    row.push(46);
    row.push(30);
    matrix.push(row);
    let mut row: Vec<i32> = Vec::new();
    row.push(11);
    row.push(59);
    row.push(7);
    row.push(55);
    row.push(10);
    row.push(58);
    row.push(6);
    row.push(54);
    matrix.push(row);
    let mut row: Vec<i32> = Vec::new();
    row.push(43);
    row.push(27);
    row.push(39);
    row.push(23);
    row.push(42);
    row.push(26);
    row.push(38);
    row.push(22);
    matrix.push(row);
    proof {
        assert(mat_view(matrix) =~= bayer8()) by {
            assert(matrix@[0]@ =~= bayer8()[0]);
            assert(matrix@[1]@ =~= bayer8()[1]);
            assert(matrix@[2]@ =~= bayer8()[2]);
            assert(matrix@[3]@ =~= bayer8()[3]);
            assert(matrix@[4]@ =~= bayer8()[4]);
            assert(matrix@[5]@ =~= bayer8()[5]);
            assert(matrix@[6]@ =~= bayer8()[6]);
            assert(matrix@[7]@ =~= bayer8()[7]);
        }
        assert(matrix_wf(bayer8()));
    }
    let q = Quantizer::Palette(colors);
    ordered_dither(bmp, &matrix, &q);
}

/// The squared distance from `p` to palette entry `j`.
pub open spec fn entry_dist(p: (i32, i32, i32), colors: Seq<Pixel>, j: int) -> i32 {
    s_dist2(p, colors[j].spec_tuple())
}

/// Entry `j` achieves the minimal squared distance to `p`, and every
/// earlier entry is strictly farther: `j` is the index the stable
/// left-to-right tie-break selects.
pub open spec fn is_first_min(p: (i32, i32, i32), colors: Seq<Pixel>, j: int) -> bool {
    &&& 0 <= j < colors.len()
    &&& forall|k: int|
        0 <= k < colors.len() ==> entry_dist(p, colors, j) <= #[trigger] entry_dist(p, colors, k)
    &&& forall|k: int| 0 <= k < j ==> #[trigger] entry_dist(p, colors, k) > entry_dist(p, colors, j)
}

proof fn lemma_closest_from_member(
    p: (i32, i32, i32),
    colors: Seq<Pixel>,
    i: int,
    best: Pixel,
    best_d: i32,
)
    requires
        exists|j: int| 0 <= j < colors.len() && colors[j] == best,
    ensures
        exists|j: int| 0 <= j < colors.len() && colors[j] == s_closest_from(p, colors, i, best, best_d),
    decreases colors.len() - i,
{
    if 0 <= i < colors.len() {
        let d = s_dist2(p, colors[i].spec_tuple());
        if d < best_d {
            assert(0 <= i < colors.len() && colors[i] == colors[i]);
            lemma_closest_from_member(p, colors, i + 1, colors[i], d);
        } else {
            lemma_closest_from_member(p, colors, i + 1, best, best_d);
        }
    }
}

/// The palette matcher always returns an exact member of the palette.
pub proof fn lemma_closest_member(p: (i32, i32, i32), colors: Seq<Pixel>)
    requires
        colors.len() >= 1,
    ensures
        exists|j: int| 0 <= j < colors.len() && colors[j] == s_closest(p, colors),
{
    assert(0 <= 0 < colors.len() && colors[0] == colors[0]);
    lemma_closest_from_member(p, colors, 1, colors[0], s_dist2(p, colors[0].spec_tuple()));
}

proof fn lemma_closest_from_first_min(p: (i32, i32, i32), colors: Seq<Pixel>, i: int, jb: int)
    requires
        0 <= jb < i <= colors.len(),
        forall|k: int|
            0 <= k < i ==> entry_dist(p, colors, jb) <= #[trigger] entry_dist(p, colors, k),
        forall|k: int|
            0 <= k < jb ==> #[trigger] entry_dist(p, colors, k) > entry_dist(p, colors, jb),
    ensures
        exists|j: int|
            #[trigger] is_first_min(p, colors, j) && colors[j] == s_closest_from(
                p,
                colors,
                i,
                colors[jb],
                entry_dist(p, colors, jb),
            ),
    decreases colors.len() - i,
{
    if i >= colors.len() {
        assert(is_first_min(p, colors, jb));
        assert(colors[jb] == s_closest_from(p, colors, i, colors[jb], entry_dist(p, colors, jb)));
    } else {
        let d = entry_dist(p, colors, i);
        if d < entry_dist(p, colors, jb) {
            lemma_closest_from_first_min(p, colors, i + 1, i);
        } else {
            lemma_closest_from_first_min(p, colors, i + 1, jb);
        }
    }
}

/// The palette matcher returns the first entry achieving the minimal
/// squared distance: the stable left-to-right tie-break.
pub proof fn lemma_closest_first_min(p: (i32, i32, i32), colors: Seq<Pixel>)
    requires
        colors.len() >= 1,
    ensures
        exists|j: int| #[trigger] is_first_min(p, colors, j) && colors[j] == s_closest(p, colors),
{
    lemma_closest_from_first_min(p, colors, 1, 0);
}

/// What the quantization step may output: a palette member, or pure black
/// or white in grayscale threshold mode.
pub open spec fn pixel_allowed(q: Quantizer, p: Pixel) -> bool {
    match q {
        Quantizer::Palette(cs) => exists|j: int| 0 <= j < cs@.len() && cs@[j] == p,
        Quantizer::GrayThreshold(_, _) => p == (Pixel { r: 0u8, g: 0u8, b: 0u8 }) || p == (Pixel {
            r: 255u8,
            g: 255u8,
            b: 255u8,
        }),
    }
}

/// Every output of the quantization step is allowed.
pub proof fn lemma_quantize_allowed(q: Quantizer, adj: (i32, i32, i32))
    requires
        q.wf(),
    ensures
        pixel_allowed(q, s_quantize(q, adj)),
{
    match q {
        Quantizer::Palette(cs) => {
            lemma_closest_member(adj, cs@);
        },
        Quantizer::GrayThreshold(_, _) => {},
    }
}

proof fn lemma_run_row_allowed(k: Kernel, q: Quantizer, st: DiffState, w: int, x: int, y: int, h: int)
    requires
        k.divisor >= 1,
        q.wf(),
        st.grid.len() == w,
        0 <= y < h,
        0 <= x,
        forall|xx: int| 0 <= xx < w ==> (#[trigger] st.grid[xx]).len() == h,
    ensures
        ({
            let r = run_row(k, q, st, w, x, y);
            &&& r.grid.len() == w
            &&& forall|xx: int| 0 <= xx < w ==> (#[trigger] r.grid[xx]).len() == h
            &&& forall|xx: int, yy: int|
                0 <= xx < w && 0 <= yy < h && !(yy == y && xx >= x) ==> r.grid[xx][yy]
                    == st.grid[xx][yy]
            &&& forall|xx: int| x <= xx < w ==> pixel_allowed(q, r.grid[xx][y])
        }),
    decreases w - x,
{
    if x < w {
        let st2 = step_pixel(k, q, st, x, y);
        let adjusted = s_add(s_add(st.grid[x][y].spec_tuple(), st.e1), st.cur[x]);
        lemma_quantize_allowed(q, adjusted);
        assert(st2.grid[x][y] == s_quantize(q, adjusted));
        lemma_run_row_allowed(k, q, st2, w, x + 1, y, h);
    }
}

proof fn lemma_run_rows_allowed(k: Kernel, q: Quantizer, st: DiffState, w: int, h: int, y: int)
    requires
        k.divisor >= 1,
        q.wf(),
        st.grid.len() == w,
        0 <= y,
        forall|xx: int| 0 <= xx < w ==> (#[trigger] st.grid[xx]).len() == h,
    ensures
        ({
            let r = run_rows(k, q, st, w, h, y);
            &&& r.grid.len() == w
            &&& forall|xx: int| 0 <= xx < w ==> (#[trigger] r.grid[xx]).len() == h
            &&& forall|xx: int, yy: int|
                0 <= xx < w && 0 <= yy < h && yy < y ==> r.grid[xx][yy] == st.grid[xx][yy]
            &&& forall|xx: int, yy: int|
                0 <= xx < w && y <= yy < h ==> pixel_allowed(q, r.grid[xx][yy])
        }),
    decreases h - y,
{
    if y < h {
        let st1 = start_row(st, w);
        lemma_run_row_allowed(k, q, st1, w, 0, y, h);
        let st2 = run_row(k, q, st1, w, 0, y);
        lemma_run_rows_allowed(k, q, st2, w, h, y + 1);
    }
}

/// Quantization soundness: after a full error-diffusion pass, every output
/// pixel is an output of the quantization step — an exact member of the
/// palette, or pure black or white in grayscale threshold mode.
pub proof fn lemma_diffuse_quantized(grid: Seq<Seq<Pixel>>, h: int, k: Kernel, q: Quantizer)
    requires
        k.divisor >= 1,
        q.wf(),
        h >= 0,
        forall|xx: int| 0 <= xx < grid.len() ==> (#[trigger] grid[xx]).len() == h,
    ensures
        s_diffuse(grid, h, k, q).len() == grid.len(),
        forall|x: int, y: int|
            0 <= x < grid.len() && 0 <= y < h ==> pixel_allowed(q, s_diffuse(grid, h, k, q)[x][y]),
{
    let w = grid.len() as int;
    let st = DiffState {
        grid,
        cur: zrow(w),
        row1: zrow(w),
        row2: zrow(w),
        e1: (0i32, 0i32, 0i32),
        e2: (0i32, 0i32, 0i32),
    };
    lemma_run_rows_allowed(k, q, st, w, h, 0);
}

/// Quantization soundness for the ordered engine: every output pixel is an
/// output of the quantization step.
pub proof fn lemma_ordered_quantized(grid: Seq<Seq<Pixel>>, h: int, m: Seq<Seq<i32>>, q: Quantizer)
    requires
        q.wf(),
        matrix_wf(m),
        h >= 0,
    ensures
        forall|x: int, y: int|
            0 <= x < grid.len() && 0 <= y < h ==> pixel_allowed(q, s_ordered(grid, h, m, q)[x][y]),
{
    assert forall|x: int, y: int|
        0 <= x < grid.len() && 0 <= y < h implies pixel_allowed(
        q,
        s_ordered(grid, h, m, q)[x][y],
    ) by {
        let n = m.len() as int;
        let factor = (n * n + 1) as i32;
        let v = m[x % n][y % n];
        let pv = s_scale(s_div(s_scale(grid[x][y].spec_tuple(), factor), 255), v);
        lemma_quantize_allowed(q, pv);
        assert(s_ordered(grid, h, m, q)[x][y] == s_quantize(q, pv));
    }
}

proof fn lemma_zero_kernel_row(q: Quantizer, st: DiffState, w: int, x: int, y: int, h: int)
    requires
        q.wf(),
        st.grid.len() == w,
        0 <= y < h,
        0 <= x,
        forall|xx: int| 0 <= xx < w ==> (#[trigger] st.grid[xx]).len() == h,
        st.cur.len() == w,
        st.row1.len() == w,
        st.row2.len() == w,
        forall|i: int| 0 <= i < w ==> st.cur[i] == (0i32, 0i32, 0i32),
        st.e1 == (0i32, 0i32, 0i32),
        st.e2 == (0i32, 0i32, 0i32),
    ensures
        ({
            let r = run_row(closest_kernel(), q, st, w, x, y);
            &&& r.grid.len() == w
            &&& forall|xx: int| 0 <= xx < w ==> (#[trigger] r.grid[xx]).len() == h
            &&& r.cur == st.cur
            &&& r.row1 == st.row1
            &&& r.row2 == st.row2
            &&& r.e1 == (0i32, 0i32, 0i32)
            &&& r.e2 == (0i32, 0i32, 0i32)
            &&& forall|xx: int, yy: int|
                0 <= xx < w && 0 <= yy < h && !(yy == y && xx >= x) ==> r.grid[xx][yy]
                    == st.grid[xx][yy]
            &&& forall|xx: int|
                x <= xx < w ==> r.grid[xx][y] == s_quantize(q, st.grid[xx][y].spec_tuple())
        }),
    decreases w - x,
{
    if x < w {
        let k = closest_kernel();
        let st2 = step_pixel(k, q, st, x, y);
        let pt = st.grid[x][y].spec_tuple();
        let adjusted = s_add(s_add(pt, st.e1), st.cur[x]);
        assert(adjusted == pt);
        assert(st2.row1 =~= st.row1);
        assert(st2.row2 =~= st.row2);
        assert(st2.e1 == (0i32, 0i32, 0i32));
        assert(st2.e2 == (0i32, 0i32, 0i32));
        assert(st2.grid[x][y] == s_quantize(q, pt));
        lemma_zero_kernel_row(q, st2, w, x + 1, y, h);
    }
}

proof fn lemma_zero_kernel_rows(q: Quantizer, st: DiffState, w: int, h: int, y: int)
    requires
        q.wf(),
        st.grid.len() == w,
        0 <= y,
        forall|xx: int| 0 <= xx < w ==> (#[trigger] st.grid[xx]).len() == h,
        st.cur.len() == w,
        st.row1.len() == w,
        st.row2.len() == w,
        forall|i: int| 0 <= i < w ==> st.cur[i] == (0i32, 0i32, 0i32),
        forall|i: int| 0 <= i < w ==> st.row1[i] == (0i32, 0i32, 0i32),
        forall|i: int| 0 <= i < w ==> st.row2[i] == (0i32, 0i32, 0i32),
    ensures
        ({
            let r = run_rows(closest_kernel(), q, st, w, h, y);
            &&& r.grid.len() == w
            &&& forall|xx: int| 0 <= xx < w ==> (#[trigger] r.grid[xx]).len() == h
            &&& forall|xx: int, yy: int|
                0 <= xx < w && 0 <= yy < h && yy < y ==> r.grid[xx][yy] == st.grid[xx][yy]
            &&& forall|xx: int, yy: int|
                0 <= xx < w && y <= yy < h ==> r.grid[xx][yy] == s_quantize(
                    q,
                    st.grid[xx][yy].spec_tuple(),
                )
        }),
    decreases h - y,
{
    if y < h {
        let st1 = start_row(st, w);
        lemma_zero_kernel_row(q, st1, w, 0, y, h);
        let st2 = run_row(closest_kernel(), q, st1, w, 0, y);
        lemma_zero_kernel_rows(q, st2, w, h, y + 1);
    }
}

/// The no-diffusion kernel — zero forward weights and divisor 1 — is
/// equivalent, pixel for pixel, to direct nearest-color quantization with
/// no error carry.
pub proof fn lemma_no_diffusion_plain(grid: Seq<Seq<Pixel>>, h: int, q: Quantizer)
    requires
        q.wf(),
        h >= 0,
        forall|xx: int| 0 <= xx < grid.len() ==> (#[trigger] grid[xx]).len() == h,
    ensures
        s_diffuse(grid, h, closest_kernel(), q).len() == grid.len(),
        forall|x: int, y: int|
            0 <= x < grid.len() && 0 <= y < h ==> s_diffuse(grid, h, closest_kernel(), q)[x][y]
                == s_quantize(q, grid[x][y].spec_tuple()),
{
    let w = grid.len() as int;
    let st = DiffState {
        grid,
        cur: zrow(w),
        row1: zrow(w),
        row2: zrow(w),
        e1: (0i32, 0i32, 0i32),
        e2: (0i32, 0i32, 0i32),
    };
    lemma_zero_kernel_rows(q, st, w, h, 0);
}

/// Edge safety: a 1 by 1 image diffuses, under any kernel, to exactly its
/// single pixel quantized, with no error carried anywhere.
pub proof fn lemma_diffuse_single_pixel(grid: Seq<Seq<Pixel>>, k: Kernel, q: Quantizer)
    requires
        k.divisor >= 1,
        q.wf(),
        grid.len() == 1,
        grid[0].len() == 1,
    ensures
        s_diffuse(grid, 1, k, q) =~~= seq![seq![s_quantize(q, grid[0][0].spec_tuple())]],
{
    let st = DiffState {
        grid,
        cur: zrow(1),
        row1: zrow(1),
        row2: zrow(1),
        e1: (0i32, 0i32, 0i32),
        e2: (0i32, 0i32, 0i32),
    };
    let st1 = start_row(st, 1);
    let st2 = step_pixel(k, q, st1, 0, 0);
    let pt = grid[0][0].spec_tuple();
    assert(s_add(s_add(pt, st1.e1), st1.cur[0]) == pt);
    assert(run_row(k, q, st1, 1, 0, 0) == run_row(k, q, st2, 1, 1, 0));
    assert(run_row(k, q, st2, 1, 1, 0) == st2);
    assert(run_rows(k, q, st2, 1, 1, 1) == st2);
    assert(s_diffuse(grid, 1, k, q) == st2.grid);
    assert(st2.grid =~~= seq![seq![s_quantize(q, pt)]]);
}

/// Edge safety for the ordered engine: a 1 by 1 image maps to its single
/// pixel pushed through the ordered-dither step.
pub proof fn lemma_ordered_single_pixel(grid: Seq<Seq<Pixel>>, m: Seq<Seq<i32>>, q: Quantizer)
    requires
        q.wf(),
        matrix_wf(m),
        grid.len() == 1,
        grid[0].len() == 1,
    ensures
        s_ordered(grid, 1, m, q) =~~= seq![seq![s_ordered_pixel(grid[0][0], 0, 0, m, q)]],
{
}

/// Ordered-dither determinism: on a solid-color image, two positions that
/// agree modulo the matrix size receive the same output color.
pub proof fn lemma_ordered_periodic(
    grid: Seq<Seq<Pixel>>,
    h: int,
    m: Seq<Seq<i32>>,
    q: Quantizer,
    v: Pixel,
    x1: int,
    y1: int,
    x2: int,
    y2: int,
)
    requires
        matrix_wf(m),
        q.wf(),
        forall|x: int, y: int| 0 <= x < grid.len() && 0 <= y < h ==> grid[x][y] == v,
        0 <= x1 < grid.len(),
        0 <= y1 < h,
        0 <= x2 < grid.len(),
        0 <= y2 < h,
        x1 % (m.len() as int) == x2 % (m.len() as int),
        y1 % (m.len() as int) == y2 % (m.len() as int),
    ensures
        s_ordered(grid, h, m, q)[x1][y1] == s_ordered(grid, h, m, q)[x2][y2],
{
    assert(grid[x1][y1] == v && grid[x2][y2] == v);
}

/// Ordered-dither periodicity: on a solid-color image the output repeats
/// with period `m.len()` along both axes.
pub proof fn lemma_ordered_period_shift(
    grid: Seq<Seq<Pixel>>,
    h: int,
    m: Seq<Seq<i32>>,
    q: Quantizer,
    v: Pixel,
    x: int,
    y: int,
)
    requires
        matrix_wf(m),
        q.wf(),
        forall|xx: int, yy: int| 0 <= xx < grid.len() && 0 <= yy < h ==> grid[xx][yy] == v,
        0 <= x < grid.len(),
        0 <= y < h,
    ensures
        x + m.len() < grid.len() ==> s_ordered(grid, h, m, q)[x + m.len()][y] == s_ordered(
            grid,
            h,
            m,
            q,
        )[x][y],
        y + m.len() < h ==> s_ordered(grid, h, m, q)[x][y + m.len()] == s_ordered(
            grid,
            h,
            m,
            q,
        )[x][y],
{
    let n = m.len() as int;
    vstd::arithmetic::div_mod::lemma_mod_multiples_vanish(1, x, n);
    vstd::arithmetic::div_mod::lemma_mod_multiples_vanish(1, y, n);
    assert((x + n) % n == x % n);
    assert((y + n) % n == y % n);
    if x + n < grid.len() {
        lemma_ordered_periodic(grid, h, m, q, v, x + n, y, x, y);
    }
    if y + n < h {
        lemma_ordered_periodic(grid, h, m, q, v, x, y + n, x, y);
    }
}

} // verus!
