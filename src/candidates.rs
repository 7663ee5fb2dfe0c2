use vstd::prelude::*;
use crate::geometry::{CropSize, inside};
use crate::plan::Plan;

verus! {

/// `len` scaled by `pct` percent, rounded down.
pub open spec fn scaled(len: nat, pct: nat) -> nat {
    len * pct / 100
}

/// `v` is a percentage scale between `lo` and `hi` inclusive and a multiple of `step`.
pub open spec fn is_scale(v: nat, lo: nat, hi: nat, step: nat) -> bool {
    lo <= v <= hi && v % step == 0
}

/// A configured crop side, or the shorter image side when it is 0.
pub open spec fn side_or_square(c: u32, w: u32, h: u32) -> u32 {
    if c != 0 { c } else if w > h { h } else { w }
}

/// The scales from `v` down to `lo`, `step` apart.
pub open spec fn scales_down(v: int, lo: int, step: int) -> Seq<u32>
    decreases v + step,
    when step > 0
{
    if v < lo || v < 0 {
        Seq::empty()
    } else {
        seq![v as u32] + scales_down(v - step, lo, step)
    }
}

/// The candidates of one row at height `y`, from column `x` on, while they
/// fit: the crop spans `ws` hundredths of a pixel across, and a position is
/// kept while `x + ws / 100 <= w` holds over the reals. Each rectangle is
/// `wd` by `ht` pixels.
pub open spec fn row(y: nat, x: nat, wd: nat, ht: nat, ws: nat, w: nat, step: nat) -> Seq<CropSize>
    decreases w + step - x,
    when step > 0
{
    if x * 100 + ws <= w * 100 {
        seq![CropSize { x: x as u32, y: y as u32, width: wd as u32, height: ht as u32 }]
            + row(y, x + step, wd, ht, ws, w, step)
    } else {
        Seq::empty()
    }
}

/// The candidates of one scale, row by row from `y` on, while the rows fit:
/// a row is kept while `y + hs / 100 <= h` holds over the reals.
pub open spec fn grid(y: nat, wd: nat, ht: nat, ws: nat, hs: nat, w: nat, h: nat, step: nat) -> Seq<CropSize>
    decreases h + step - y,
    when step > 0
{
    if y * 100 + hs <= h * 100 {
        row(y, 0, wd, ht, ws, w, step) + grid(y + step, wd, ht, ws, hs, w, h, step)
    } else {
        Seq::empty()
    }
}

/// The candidates of scale `pct`: rectangles of the crop scaled and rounded
/// down, at positions where the exactly scaled crop fits.
pub open spec fn scale_grid(pct: nat, cw: nat, ch: nat, w: nat, h: nat, step: nat) -> Seq<CropSize> {
    grid(0, scaled(cw, pct), scaled(ch, pct), cw * pct, ch * pct, w, h, step)
}

/// All candidates: the grids of the scales in the order given.
pub open spec fn all_candidates(
    scales: Seq<u32>,
    cw: nat,
    ch: nat,
    w: nat,
    h: nat,
    step: nat,
) -> Seq<CropSize>
    decreases scales.len(),
{
    if scales.len() == 0 {
        Seq::empty()
    } else {
        scale_grid(scales[0] as nat, cw, ch, w, h, step)
            + all_candidates(scales.drop_first(), cw, ch, w, h, step)
    }
}

/// The crop, scaled exactly by `pct` percent, fits inside a `w` by `h` image.
pub open spec fn fits_at(pct: nat, cw: nat, ch: nat, w: nat, h: nat) -> bool {
    cw * pct <= w * 100 && ch * pct <= h * 100
}

proof fn lemma_row_inside(y: nat, x: nat, wd: nat, ht: nat, ws: nat, w: nat, h: nat, step: nat)
    requires
        step > 0,
        y + ht <= h,
        wd * 100 <= ws,
        w <= u32::MAX,
        h <= u32::MAX,
    ensures
        forall|i: int| 0 <= i < row(y, x, wd, ht, ws, w, step).len()
            ==> inside(#[trigger] row(y, x, wd, ht, ws, w, step)[i], w, h),
    decreases w + step - x,
{
    if x * 100 + ws <= w * 100 {
        lemma_row_inside(y, x + step, wd, ht, ws, w, h, step);
        let rest = row(y, x + step, wd, ht, ws, w, step);
        assert forall|i: int| 0 <= i < row(y, x, wd, ht, ws, w, step).len()
            implies inside(#[trigger] row(y, x, wd, ht, ws, w, step)[i], w, h) by {
            if i > 0 {
                assert(row(y, x, wd, ht, ws, w, step)[i] == rest[i - 1]);
            }
        }
    }
}

proof fn lemma_grid_inside(y: nat, wd: nat, ht: nat, ws: nat, hs: nat, w: nat, h: nat, step: nat)
    requires
        step > 0,
        wd * 100 <= ws,
        ht * 100 <= hs,
        w <= u32::MAX,
        h <= u32::MAX,
    ensures
        forall|i: int| 0 <= i < grid(y, wd, ht, ws, hs, w, h, step).len()
            ==> inside(#[trigger] grid(y, wd, ht, ws, hs, w, h, step)[i], w, h),
    decreases h + step - y,
{
    if y * 100 + hs <= h * 100 {
        lemma_row_inside(y, 0, wd, ht, ws, w, h, step);
        lemma_grid_inside(y + step, wd, ht, ws, hs, w, h, step);
        let a = row(y, 0, wd, ht, ws, w, step);
        let b = grid(y + step, wd, ht, ws, hs, w, h, step);
        assert forall|i: int| 0 <= i < grid(y, wd, ht, ws, hs, w, h, step).len()
            implies inside(#[trigger] grid(y, wd, ht, ws, hs, w, h, step)[i], w, h) by {
            if i < a.len() {
                assert(grid(y, wd, ht, ws, hs, w, h, step)[i] == a[i]);
            } else {
                assert(grid(y, wd, ht, ws, hs, w, h, step)[i] == b[i - a.len()]);
            }
        }
    }
}

/// Every enumerated candidate lies wholly inside the image it was enumerated for.
pub proof fn lemma_candidates_inside(
    scales: Seq<u32>,
    cw: nat,
    ch: nat,
    w: nat,
    h: nat,
    step: nat,
)
    requires
        step > 0,
        w <= u32::MAX,
        h <= u32::MAX,
    ensures
        forall|i: int| 0 <= i < all_candidates(scales, cw, ch, w, h, step).len()
            ==> inside(#[trigger] all_candidates(scales, cw, ch, w, h, step)[i], w, h),
    decreases scales.len(),
{
    if scales.len() > 0 {
        let pct = scales[0] as nat;
        let ws = cw * pct;
        let hs = ch * pct;
        let wd = scaled(cw, pct);
        let ht = scaled(ch, pct);
        assert(wd * 100 <= ws && ht * 100 <= hs);
        lemma_grid_inside(0, wd, ht, ws, hs, w, h, step);
        lemma_candidates_inside(scales.drop_first(), cw, ch, w, h, step);
        let a = scale_grid(pct, cw, ch, w, h, step);
        let b = all_candidates(scales.drop_first(), cw, ch, w, h, step);
        assert forall|i: int| 0 <= i < all_candidates(scales, cw, ch, w, h, step).len()
            implies inside(#[trigger] all_candidates(scales, cw, ch, w, h, step)[i], w, h) by {
            if i < a.len() {
                assert(all_candidates(scales, cw, ch, w, h, step)[i] == a[i]);
            } else {
                assert(all_candidates(scales, cw, ch, w, h, step)[i] == b[i - a.len()]);
            }
        }
    }
}

proof fn lemma_grid_empty_when_too_wide(y: nat, wd: nat, ht: nat, ws: nat, hs: nat, w: nat, h: nat, step: nat)
    requires
        step > 0,
        ws > w * 100,
    ensures
        grid(y, wd, ht, ws, hs, w, h, step).len() == 0,
    decreases h + step - y,
{
    if y * 100 + hs <= h * 100 {
        assert(row(y, 0, wd, ht, ws, w, step).len() == 0);
        lemma_grid_empty_when_too_wide(y + step, wd, ht, ws, hs, w, h, step);
    }
}

/// There are no candidates exactly when the crop, scaled exactly, fits inside
/// the image at none of the scales.
pub proof fn lemma_candidates_empty_iff(
    scales: Seq<u32>,
    cw: nat,
    ch: nat,
    w: nat,
    h: nat,
    step: nat,
)
    requires
        step > 0,
    ensures
        all_candidates(scales, cw, ch, w, h, step).len() == 0
            <==> forall|i: int| 0 <= i < scales.len() ==> !fits_at(#[trigger] scales[i] as nat, cw, ch, w, h),
    decreases scales.len(),
{
    if scales.len() > 0 {
        let pct = scales[0] as nat;
        let g = scale_grid(pct, cw, ch, w, h, step);
        lemma_candidates_empty_iff(scales.drop_first(), cw, ch, w, h, step);
        if fits_at(pct, cw, ch, w, h) {
            assert(g.len() > 0) by {
                let r0 = row(0, 0, scaled(cw, pct), scaled(ch, pct), cw * pct, w, step);
                assert(r0.len() > 0);
                assert(g == r0 + grid(step, scaled(cw, pct), scaled(ch, pct), cw * pct, ch * pct, w, h, step));
            }
        } else if cw * pct > w * 100 {
            lemma_grid_empty_when_too_wide(0, scaled(cw, pct), scaled(ch, pct), cw * pct, ch * pct, w, h, step);
        } else {
            assert(g.len() == 0);
        }
        assert forall|i: int| 0 <= i < scales.drop_first().len()
            implies #[trigger] scales.drop_first()[i] == scales[i + 1] by {}
        if all_candidates(scales, cw, ch, w, h, step).len() == 0 {
            assert forall|i: int| 0 <= i < scales.len() implies !fits_at(#[trigger] scales[i] as nat, cw, ch, w, h) by {
                if i > 0 {
                    assert(scales[i] == scales.drop_first()[i - 1]);
                }
            }
        } else if forall|i: int| 0 <= i < scales.len() ==> !fits_at(#[trigger] scales[i] as nat, cw, ch, w, h) {
            assert(!fits_at(scales[0] as nat, cw, ch, w, h));
            assert forall|i: int| 0 <= i < scales.drop_first().len()
                implies !fits_at(#[trigger] scales.drop_first()[i] as nat, cw, ch, w, h) by {
                assert(scales.drop_first()[i] == scales[i + 1]);
            }
        }
    }
}

proof fn lemma_scales_down(v: int, lo: int, hi: int, step: int)
    requires
        step > 0,
        lo >= 0,
        v % step == 0,
        v <= hi,
        hi <= u32::MAX,
    ensures
        forall|i: int| 0 <= i < scales_down(v, lo, step).len()
            ==> is_scale(#[trigger] scales_down(v, lo, step)[i] as nat, lo as nat, hi as nat, step as nat)
                && scales_down(v, lo, step)[i] <= v,
        forall|i: int, j: int| 0 <= i < j < scales_down(v, lo, step).len()
            ==> #[trigger] scales_down(v, lo, step)[i] > #[trigger] scales_down(v, lo, step)[j],
        forall|u: u32| lo <= u <= v && (u as int) % step == 0 ==> #[trigger] scales_down(v, lo, step).contains(u),
    decreases v + step,
{
    if !(v < lo || v < 0) {
        let s = scales_down(v, lo, step);
        let t = scales_down(v - step, lo, step);
        vstd::arithmetic::div_mod::lemma_mod_sub_multiples_vanish(v, step);
        vstd::arithmetic::div_mod::lemma_mod_self_0(step);
        lemma_scales_down(v - step, lo, hi, step);
        assert(s == seq![v as u32] + t);
        assert forall|i: int| 0 <= i < s.len()
            implies is_scale(#[trigger] s[i] as nat, lo as nat, hi as nat, step as nat) && s[i] <= v by {
            if i > 0 {
                assert(s[i] == t[i - 1]);
            } else {
                assert(s[0] == v as u32);
                assert((v as u32) as int == v);
            }
        }
        assert forall|i: int, j: int| 0 <= i < j < s.len() implies #[trigger] s[i] > #[trigger] s[j] by {
            assert(s[j] == t[j - 1]);
            if i > 0 {
                assert(s[i] == t[i - 1]);
            }
        }
        assert forall|u: u32| lo <= u <= v && (u as int) % step == 0 implies #[trigger] s.contains(u) by {
            let ui = u as int;
            if ui == v {
                assert(s[0] == u);
            } else {
                vstd::arithmetic::div_mod::lemma_fundamental_div_mod(ui, step);
                vstd::arithmetic::div_mod::lemma_fundamental_div_mod(v, step);
                assert(ui <= v - step) by (nonlinear_arith)
                    requires
                        ui == step * (ui / step) + 0,
                        v == step * (v / step) + 0,
                        ui < v,
                        step > 0,
                ;
                assert(t.contains(u));
                let k = choose|k: int| 0 <= k < t.len() && t[k] == u;
                assert(s[k + 1] == u);
            }
        }
    }
}

proof fn lemma_scale_list(lo: u32, hi: u32, step: u32)
    requires
        step > 0,
    ensures
        forall|i: int| 0 <= i < scales_down(hi - hi % step, lo as int, step as int).len()
            ==> is_scale(#[trigger] scales_down(hi - hi % step, lo as int, step as int)[i] as nat,
                lo as nat, hi as nat, step as nat),
        forall|i: int, j: int| 0 <= i < j < scales_down(hi - hi % step, lo as int, step as int).len()
            ==> #[trigger] scales_down(hi - hi % step, lo as int, step as int)[i]
                > #[trigger] scales_down(hi - hi % step, lo as int, step as int)[j],
        forall|u: u32| is_scale(u as nat, lo as nat, hi as nat, step as nat)
            ==> scales_down(hi - hi % step, lo as int, step as int).contains(u),
{
    let top = hi - hi % step;
    vstd::arithmetic::div_mod::lemma_fundamental_div_mod(hi as int, step as int);
    vstd::arithmetic::div_mod::lemma_mod_multiples_basic(hi as int / step as int, step as int);
    vstd::arithmetic::div_mod::lemma_mod_pos_bound(hi as int, step as int);
    vstd::arithmetic::mul::lemma_mul_is_commutative(hi as int / step as int, step as int);
    assert(top % step as int == 0);
    lemma_scales_down(top, lo as int, hi as int, step as int);
    assert forall|u: u32| is_scale(u as nat, lo as nat, hi as nat, step as nat)
        implies scales_down(top, lo as int, step as int).contains(u) by {
        vstd::arithmetic::div_mod::lemma_fundamental_div_mod(u as int, step as int);
        let (ui, st, hii) = (u as int, step as int, hi as int);
        assert(ui <= top) by (nonlinear_arith)
            requires
                ui == st * (ui / st) + 0,
                hii == st * (hii / st) + hii % st,
                top == hii - hii % st,
                0 <= hii % st,
                st > hii % st,
                ui <= hii,
                st > 0,
        ;
        assert((u as int) as u32 == u);
    }
}

/// The percentage scales that are multiples of `step` between `lo` and `hi`
/// inclusive, largest first.
pub fn scale_list(lo: u32, hi: u32, step: u32) -> (r: Vec<u32>)
    requires
        step > 0,
    ensures
        r@ == scales_down(hi - hi % step, lo as int, step as int),
        forall|i: int| 0 <= i < r@.len() ==> is_scale(#[trigger] r@[i] as nat, lo as nat, hi as nat, step as nat),
        forall|i: int, j: int| 0 <= i < j < r@.len() ==> #[trigger] r@[i] > #[trigger] r@[j],
        forall|u: u32| is_scale(u as nat, lo as nat, hi as nat, step as nat) ==> r@.contains(u),
{
    let mut out: Vec<u32> = Vec::new();
    proof {
        vstd::arithmetic::div_mod::lemma_mod_decreases(hi as nat, step as nat);
    }
    let mut v: u32 = hi - hi % step;
    let ghost top = hi - hi % step;
    while v >= lo
        invariant
            step > 0,
            top == hi - hi % step,
            out@ + scales_down(v as int, lo as int, step as int) == scales_down(top, lo as int, step as int),
        decreases v,
    {
        let ghost before = out@;
        out.push(v);
        assert(scales_down(v as int, lo as int, step as int)
            == seq![v] + scales_down(v - step, lo as int, step as int));
        if v < step {
            assert(scales_down(v - step, lo as int, step as int) =~= Seq::empty());
            assert(out@ =~= scales_down(top, lo as int, step as int));
            proof {
                lemma_scale_list(lo, hi, step);
            }
            return out;
        }
        assert(out@ + scales_down(v - step, lo as int, step as int)
            =~= before + scales_down(v as int, lo as int, step as int));
        v = v - step;
    }
    assert(out@ =~= scales_down(top, lo as int, step as int));
    proof {
        lemma_scale_list(lo, hi, step);
    }
    out
}

/// Enumerates the candidates of a plan: the scales from its adjusted minimum
/// up to `max_scale_pct`, `scale_step_pct` apart, over its working image and
/// crop size, positions `step` apart.
pub fn plan_candidates(p: &Plan, max_scale_pct: u32, scale_step_pct: u32, step: u32) -> (r: Vec<CropSize>)
    requires
        scale_step_pct > 0,
        step > 0,
    ensures
        r@ == all_candidates(
            scales_down(max_scale_pct - max_scale_pct % scale_step_pct, p.min_scale_pct as int, scale_step_pct as int),
            side_or_square(p.crop_width, p.work_width, p.work_height) as nat,
            side_or_square(p.crop_height, p.work_width, p.work_height) as nat,
            p.work_width as nat, p.work_height as nat, step as nat),
        forall|i: int| 0 <= i < r@.len() ==> inside(#[trigger] r@[i], p.work_width as nat, p.work_height as nat),
        r@.len() == 0 <==> forall|i: int|
            0 <= i < scales_down(max_scale_pct - max_scale_pct % scale_step_pct, p.min_scale_pct as int,
                scale_step_pct as int).len()
            ==> !fits_at(#[trigger] scales_down(max_scale_pct - max_scale_pct % scale_step_pct,
                p.min_scale_pct as int, scale_step_pct as int)[i] as nat,
                side_or_square(p.crop_width, p.work_width, p.work_height) as nat,
                side_or_square(p.crop_height, p.work_width, p.work_height) as nat,
                p.work_width as nat, p.work_height as nat),
{
    let scales = scale_list(p.min_scale_pct, max_scale_pct, scale_step_pct);
    crops(p.work_width, p.work_height, p.crop_width, p.crop_height, &scales, step)
}

/// A crop that is larger than the image in both dimensions at every scale
/// yields no candidate at all.
pub proof fn lemma_oversized_crop_has_no_candidates(
    scales: Seq<u32>,
    cw: nat,
    ch: nat,
    w: nat,
    h: nat,
    step: nat,
)
    requires
        step > 0,
        forall|i: int| 0 <= i < scales.len()
            ==> cw * (#[trigger] scales[i] as nat) > w * 100 && ch * (scales[i] as nat) > h * 100,
    ensures
        all_candidates(scales, cw, ch, w, h, step).len() == 0,
{
    assert forall|i: int| 0 <= i < scales.len() implies !fits_at(#[trigger] scales[i] as nat, cw, ch, w, h) by {}
    lemma_candidates_empty_iff(scales, cw, ch, w, h, step);
}

/// Appends the row at height `y` to `out`.
fn push_row(out: &mut Vec<CropSize>, y: u32, wd: u64, ht: u64, ws: u128, w: u32, step: u32)
    requires
        step > 0,
        wd * 100 <= ws,
        ws <= u64::MAX,
    ensures
        final(out)@ == old(out)@ + row(y as nat, 0, wd as nat, ht as nat, ws as nat, w as nat, step as nat),
{
    let ghost start = old(out)@;
    let mut x: u64 = 0;
    while x as u128 * 100 + ws <= w as u128 * 100
        invariant
            step > 0,
            wd * 100 <= ws,
            ws <= u64::MAX,
            x <= u32::MAX as u64 + step as u64,
            out@ + row(y as nat, x as nat, wd as nat, ht as nat, ws as nat, w as nat, step as nat)
                == start + row(y as nat, 0, wd as nat, ht as nat, ws as nat, w as nat, step as nat),
        decreases w as u64 + step as u64 - x,
    {
        let c = CropSize { x: x as u32, y, width: wd as u32, height: ht as u32 };
        let ghost before = out@;
        out.push(c);
        assert(out@ + row(y as nat, (x + step as u64) as nat, wd as nat, ht as nat, ws as nat, w as nat, step as nat)
            =~= before + row(y as nat, x as nat, wd as nat, ht as nat, ws as nat, w as nat, step as nat));
        x = x + step as u64;
    }
    assert(row(y as nat, x as nat, wd as nat, ht as nat, ws as nat, w as nat, step as nat) =~= Seq::empty());
    assert(out@ =~= start + row(y as nat, 0, wd as nat, ht as nat, ws as nat, w as nat, step as nat));
}

/// Appends the candidates of one scale to `out`.
fn push_grid(out: &mut Vec<CropSize>, wd: u64, ht: u64, ws: u128, hs: u128, w: u32, h: u32, step: u32)
    requires
        step > 0,
        wd * 100 <= ws,
        ws <= u64::MAX,
        hs <= u64::MAX,
    ensures
        final(out)@ == old(out)@ + grid(0, wd as nat, ht as nat, ws as nat, hs as nat, w as nat, h as nat, step as nat),
{
    let ghost start = old(out)@;
    let mut y: u64 = 0;
    while y as u128 * 100 + hs <= h as u128 * 100
        invariant
            step > 0,
            wd * 100 <= ws,
            ws <= u64::MAX,
            hs <= u64::MAX,
            y <= u32::MAX as u64 + step as u64,
            out@ + grid(y as nat, wd as nat, ht as nat, ws as nat, hs as nat, w as nat, h as nat, step as nat)
                == start + grid(0, wd as nat, ht as nat, ws as nat, hs as nat, w as nat, h as nat, step as nat),
        decreases h as u64 + step as u64 - y,
    {
        let ghost before = out@;
        push_row(out, y as u32, wd, ht, ws, w, step);
        assert(out@ + grid((y + step as u64) as nat, wd as nat, ht as nat, ws as nat, hs as nat, w as nat, h as nat, step as nat)
            =~= before + grid(y as nat, wd as nat, ht as nat, ws as nat, hs as nat, w as nat, h as nat, step as nat));
        y = y + step as u64;
    }
    assert(grid(y as nat, wd as nat, ht as nat, ws as nat, hs as nat, w as nat, h as nat, step as nat) =~= Seq::empty());
    assert(out@ =~= start + grid(0, wd as nat, ht as nat, ws as nat, hs as nat, w as nat, h as nat, step as nat));
}

/// Enumerates the candidate rectangles of a `w` by `h` image for a crop of
/// `crop_width` by `crop_height`: for each scale in the order given, each
/// row `y` (a multiple of `step`, ascending, while the exactly scaled crop
/// fits) and each column `x` (likewise), the rectangle at `(x, y)` of the
/// scaled size rounded down. A crop side of 0 stands for the shorter side of
/// the image.
pub fn crops(w: u32, h: u32, crop_width: u32, crop_height: u32, scales: &Vec<u32>, step: u32) -> (r: Vec<CropSize>)
    requires
        step > 0,
    ensures
        r@ == all_candidates(scales@, side_or_square(crop_width, w, h) as nat,
            side_or_square(crop_height, w, h) as nat, w as nat, h as nat, step as nat),
        forall|i: int| 0 <= i < r@.len() ==> inside(#[trigger] r@[i], w as nat, h as nat),
        r@.len() == 0 <==> forall|i: int| 0 <= i < scales@.len()
            ==> !fits_at(#[trigger] scales@[i] as nat, side_or_square(crop_width, w, h) as nat,
                side_or_square(crop_height, w, h) as nat, w as nat, h as nat),
{
    let shorter = if w > h { h } else { w };
    let crop_width = if crop_width != 0 { crop_width } else { shorter };
    let crop_height = if crop_height != 0 { crop_height } else { shorter };
    let mut out: Vec<CropSize> = Vec::new();
    let mut k: usize = 0;
    assert(scales@.subrange(0, scales@.len() as int) =~= scales@);
    while k < scales.len()
        invariant
            step > 0,
            k <= scales@.len(),
            out@ + all_candidates(scales@.subrange(k as int, scales@.len() as int), crop_width as nat,
                crop_height as nat, w as nat, h as nat, step as nat)
                == all_candidates(scales@, crop_width as nat, crop_height as nat, w as nat, h as nat, step as nat),
        decreases scales@.len() - k,
    {
        let pct = scales[k];
        assert(crop_width as u64 * pct as u64 <= u64::MAX) by (nonlinear_arith)
            requires crop_width <= u32::MAX, pct <= u32::MAX;
        assert(crop_height as u64 * pct as u64 <= u64::MAX) by (nonlinear_arith)
            requires crop_height <= u32::MAX, pct <= u32::MAX;
        let ws: u64 = crop_width as u64 * pct as u64;
        let hs: u64 = crop_height as u64 * pct as u64;
        let wd: u64 = ws / 100;
        let ht: u64 = hs / 100;
        let ghost before = out@;
        let ghost rest = scales@.subrange(k as int, scales@.len() as int);
        push_grid(&mut out, wd, ht, ws as u128, hs as u128, w, h, step);
        assert(rest.drop_first() =~= scales@.subrange(k + 1, scales@.len() as int));
        assert(out@ + all_candidates(rest.drop_first(), crop_width as nat, crop_height as nat, w as nat,
            h as nat, step as nat) =~= before + all_candidates(rest, crop_width as nat, crop_height as nat,
            w as nat, h as nat, step as nat));
        k = k + 1;
    }
    assert(scales@.subrange(k as int, scales@.len() as int) =~= Seq::<u32>::empty());
    assert(out@ =~= all_candidates(scales@, crop_width as nat, crop_height as nat, w as nat, h as nat, step as nat));
    proof {
        lemma_candidates_empty_iff(scales@, crop_width as nat, crop_height as nat, w as nat, h as nat, step as nat);
    }
    proof {
        lemma_candidates_inside(scales@, crop_width as nat, crop_height as nat, w as nat, h as nat, step as nat);
    }
    out
}

} // verus!
