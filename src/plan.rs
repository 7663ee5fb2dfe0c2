use vstd::prelude::*;
use crate::geometry::{CropError, CropSize, inside};

verus! {

/// What an analysis is asked to do, in integers: the image size, the target
/// size (0 when unset), the bounds of the scale search in percent and whether
/// the image may be downscaled before analysis.
#[derive(Clone, Copy, Debug, PartialEq, Eq, Structural)]
pub struct Request {
    pub image_width: u32,
    pub image_height: u32,
    pub target_width: u32,
    pub target_height: u32,
    pub min_scale_pct: u32,
    pub max_scale_pct: u32,
    pub prescale: bool,
}

/// The working state derived from a request. Every ratio is held as a
/// numerator and a denominator.
#[derive(Clone, Copy, Debug, PartialEq, Eq, Structural)]
pub struct Plan {
    pub image_width: u32,
    pub image_height: u32,
    /// Ratio of image size to target size (the smaller of the two axes).
    pub scale_num: u64,
    pub scale_den: u64,
    /// Smallest scale the candidates may take, after adjustment.
    pub min_num: u64,
    pub min_den: u64,
    /// That smallest scale in percent, rounded up.
    pub min_scale_pct: u32,
    /// Factor applied to the image before analysis.
    pub pre_num: u64,
    pub pre_den: u64,
    /// Size of the image that is analysed.
    pub work_width: u32,
    pub work_height: u32,
    /// Crop size in working coordinates; 0 asks for a square of the shorter side.
    pub crop_width: u32,
    pub crop_height: u32,
}

pub open spec fn targets_set(q: Request) -> bool {
    q.target_width != 0 && q.target_height != 0
}

/// The width bounds the scale: image width / target width is the smaller ratio.
pub open spec fn width_bound(q: Request) -> bool {
    q.image_width * q.target_height <= q.image_height * q.target_width
}

pub open spec fn scale_num(q: Request) -> int {
    if !targets_set(q) { 1 } else if width_bound(q) { q.image_width as int } else { q.image_height as int }
}

pub open spec fn scale_den(q: Request) -> int {
    if !targets_set(q) { 1 } else if width_bound(q) { q.target_width as int } else { q.target_height as int }
}

/// The larger of `1 / scale` and the configured minimum, as (numerator, denominator).
pub open spec fn lower_min(q: Request) -> (int, int) {
    if 100 * scale_den(q) > q.min_scale_pct * scale_num(q) {
        (scale_den(q), scale_num(q))
    } else {
        (q.min_scale_pct as int, 100)
    }
}

/// The adjusted minimum scale: `min(max_scale, max(1 / scale, min_scale))`
/// when a target is set, the configured minimum otherwise.
pub open spec fn min_ratio(q: Request) -> (int, int) {
    if !targets_set(q) {
        (q.min_scale_pct as int, 100)
    } else if q.max_scale_pct * lower_min(q).1 < 100 * lower_min(q).0 {
        (q.max_scale_pct as int, 100)
    } else {
        lower_min(q)
    }
}

/// Downscaling applies: it is asked for, a target is set and `1 / (scale * min)` is below 1.
pub open spec fn downscales(q: Request) -> bool {
    q.prescale && targets_set(q)
        && scale_den(q) * min_ratio(q).1 < scale_num(q) * min_ratio(q).0
}

pub open spec fn pre_ratio(q: Request) -> (int, int) {
    if downscales(q) {
        (scale_den(q) * min_ratio(q).1, scale_num(q) * min_ratio(q).0)
    } else {
        (1, 1)
    }
}

/// `v * n / d`, rounded down.
pub open spec fn times(v: int, r: (int, int)) -> int {
    v * r.0 / r.1
}

/// Crop size in image coordinates: the target scaled by `scale`, or 0 when unset.
pub open spec fn base_crop(q: Request, t: int) -> int {
    if targets_set(q) { times(t, (scale_num(q), scale_den(q))) } else { 0 }
}

pub open spec fn min_pct_of(q: Request) -> int {
    (100 * min_ratio(q).0 + min_ratio(q).1 - 1) / min_ratio(q).1
}

/// Every derived size fits in 32 bits.
pub open spec fn representable(q: Request) -> bool {
    &&& min_pct_of(q) <= u32::MAX
    &&& times(base_crop(q, q.target_width as int), pre_ratio(q)) <= u32::MAX
    &&& times(base_crop(q, q.target_height as int), pre_ratio(q)) <= u32::MAX
}

/// `p` is the plan of request `q`.
pub open spec fn plan_of(q: Request, p: Plan) -> bool {
    &&& p.image_width == q.image_width
    &&& p.image_height == q.image_height
    &&& p.scale_num == scale_num(q)
    &&& p.scale_den == scale_den(q)
    &&& p.min_num == min_ratio(q).0
    &&& p.min_den == min_ratio(q).1
    &&& p.min_scale_pct == min_pct_of(q)
    &&& p.pre_num == pre_ratio(q).0
    &&& p.pre_den == pre_ratio(q).1
    &&& p.work_width == times(q.image_width as int, pre_ratio(q))
    &&& p.work_height == times(q.image_height as int, pre_ratio(q))
    &&& p.crop_width == times(base_crop(q, q.target_width as int), pre_ratio(q))
    &&& p.crop_height == times(base_crop(q, q.target_height as int), pre_ratio(q))
}

/// The working image maps back into the original one.
pub open spec fn wf(p: Plan) -> bool {
    &&& p.pre_num > 0
    &&& p.pre_den > 0
    &&& p.work_width * p.pre_den <= p.image_width * p.pre_num
    &&& p.work_height * p.pre_den <= p.image_height * p.pre_num
    &&& p.pre_num <= p.pre_den
    &&& p.pre_num == p.pre_den ==> p.work_width == p.image_width && p.work_height == p.image_height
}

/// A working coordinate divided by the prescale factor, rounded down.
pub open spec fn unscale(v: u32, p: Plan) -> int {
    v as int * p.pre_den as int / p.pre_num as int
}

pub open spec fn rescaled(c: CropSize, p: Plan) -> CropSize {
    CropSize {
        x: unscale(c.x, p) as u32,
        y: unscale(c.y, p) as u32,
        width: unscale(c.width, p) as u32,
        height: unscale(c.height, p) as u32,
    }
}

proof fn lemma_floor_property(v: int, d: int)
    requires
        v >= 0,
        d > 0,
    ensures
        (v / d) * d <= v,
        v / d >= 0,
{
    vstd::arithmetic::div_mod::lemma_fundamental_div_mod(v, d);
    vstd::arithmetic::div_mod::lemma_div_pos_is_pos(v, d);
    vstd::arithmetic::div_mod::lemma_mod_pos_bound(v, d);
    vstd::arithmetic::mul::lemma_mul_is_commutative(d, v / d);
}

/// Two lengths side by side, each divided and rounded down, fit within their
/// sum divided and rounded down.
proof fn lemma_floor_add(a: int, b: int, d: int)
    requires
        a >= 0,
        b >= 0,
        d > 0,
    ensures
        a / d + b / d <= (a + b) / d,
{
    lemma_floor_property(a, d);
    lemma_floor_property(b, d);
    assert((a / d + b / d) * d <= a + b) by (nonlinear_arith)
        requires (a / d) * d <= a, (b / d) * d <= b;
    vstd::arithmetic::div_mod::lemma_div_is_ordered((a / d + b / d) * d, a + b, d);
    vstd::arithmetic::div_mod::lemma_div_by_multiple(a / d + b / d, d);
}

/// A span `[o, o + len)` inside `[0, bound)` in working coordinates maps to a
/// span inside `[0, full)` in original coordinates.
proof fn lemma_span_back(o: int, len: int, bound: int, full: int, n: int, d: int)
    requires
        o >= 0,
        len >= 0,
        o + len <= bound,
        n > 0,
        d > 0,
        bound * d <= full * n,
        full >= 0,
    ensures
        o * d / n + len * d / n <= full,
{
    lemma_floor_add(o * d, len * d, n);
    assert(o * d + len * d <= bound * d) by (nonlinear_arith)
        requires o + len <= bound, d > 0;
    vstd::arithmetic::div_mod::lemma_div_is_ordered(o * d + len * d, full * n, n);
    vstd::arithmetic::div_mod::lemma_div_by_multiple(full, n);
}

/// Mapping a candidate that lies inside the working image back by the
/// prescale factor gives a rectangle that lies inside the original image.
pub proof fn lemma_rescaled_inside(p: Plan, c: CropSize)
    requires
        wf(p),
        inside(c, p.work_width as nat, p.work_height as nat),
    ensures
        inside(rescaled(c, p), p.image_width as nat, p.image_height as nat),
{
    lemma_span_back(c.x as int, c.width as int, p.work_width as int, p.image_width as int,
        p.pre_num as int, p.pre_den as int);
    lemma_span_back(c.y as int, c.height as int, p.work_height as int, p.image_height as int,
        p.pre_num as int, p.pre_den as int);
    lemma_floor_property(c.x * p.pre_den, p.pre_num as int);
    lemma_floor_property(c.y * p.pre_den, p.pre_num as int);
    lemma_floor_property(c.width * p.pre_den, p.pre_num as int);
    lemma_floor_property(c.height * p.pre_den, p.pre_num as int);
}

/// Maps a rectangle of the working image back to original-image coordinates.
pub fn rescale(c: &CropSize, p: &Plan) -> (r: CropSize)
    requires
        wf(*p),
        inside(*c, p.work_width as nat, p.work_height as nat),
    ensures
        r == rescaled(*c, *p),
        inside(r, p.image_width as nat, p.image_height as nat),
{
    proof {
        lemma_rescaled_inside(*p, *c);
    }
    let n = p.pre_num as u128;
    let d = p.pre_den as u128;
    assert(c.x as u128 * d <= u128::MAX) by (nonlinear_arith) requires c.x <= u32::MAX, d <= u64::MAX;
    assert(c.y as u128 * d <= u128::MAX) by (nonlinear_arith) requires c.y <= u32::MAX, d <= u64::MAX;
    assert(c.width as u128 * d <= u128::MAX) by (nonlinear_arith) requires c.width <= u32::MAX, d <= u64::MAX;
    assert(c.height as u128 * d <= u128::MAX) by (nonlinear_arith) requires c.height <= u32::MAX, d <= u64::MAX;
    CropSize {
        x: (c.x as u128 * d / n) as u32,
        y: (c.y as u128 * d / n) as u32,
        width: (c.width as u128 * d / n) as u32,
        height: (c.height as u128 * d / n) as u32,
    }
}

/// Derives the working state of a request: the scale between image and
/// target, the crop size, the adjusted minimum scale and the prescale factor
/// with the size of the image that is analysed.
pub fn plan(q: &Request) -> (r: Result<Plan, CropError>)
    ensures
        r == Err::<Plan, CropError>(CropError::InvalidInput) <==> (q.image_width == 0 || q.image_height == 0),
        r == Err::<Plan, CropError>(CropError::NumericOverflow)
            <==> (q.image_width > 0 && q.image_height > 0 && !representable(*q)),
        r is Ok <==> (q.image_width > 0 && q.image_height > 0 && representable(*q)),
        r is Ok ==> plan_of(*q, r->Ok_0) && wf(r->Ok_0),
{
    if q.image_width == 0 || q.image_height == 0 {
        return Err(CropError::InvalidInput);
    }
    let w = q.image_width as u128;
    let h = q.image_height as u128;
    let tw = q.target_width as u128;
    let th = q.target_height as u128;
    let lo = q.min_scale_pct as u128;
    let hi = q.max_scale_pct as u128;
    let targets = tw != 0 && th != 0;
    assert(w * th <= u64::MAX && h * tw <= u64::MAX) by (nonlinear_arith)
        requires w <= u32::MAX, h <= u32::MAX, tw <= u32::MAX, th <= u32::MAX;
    let (sn, sd): (u128, u128) = if !targets {
        (1, 1)
    } else if w * th <= h * tw {
        (w, tw)
    } else {
        (h, th)
    };
    assert(sn == scale_num(*q) && sd == scale_den(*q));
    assert(100 * sd <= u64::MAX && lo * sn <= u64::MAX) by (nonlinear_arith)
        requires sd <= u32::MAX, sn <= u32::MAX, lo <= u32::MAX;
    let (ln, ld): (u128, u128) = if 100 * sd > lo * sn { (sd, sn) } else { (lo, 100) };
    assert(ln == lower_min(*q).0 && ld == lower_min(*q).1);
    assert(hi * ld <= u64::MAX && 100 * ln <= u64::MAX) by (nonlinear_arith)
        requires ld <= u32::MAX, ln <= u32::MAX, hi <= u32::MAX;
    let (mn, md): (u128, u128) = if !targets {
        (lo, 100)
    } else if hi * ld < 100 * ln {
        (hi, 100)
    } else {
        (ln, ld)
    };
    assert(mn == min_ratio(*q).0 && md == min_ratio(*q).1);
    assert(md > 0 && md <= u32::MAX && mn <= u32::MAX && sd > 0 && sn > 0);
    assert(sd * md <= u64::MAX && sn * mn <= u64::MAX && sd * md > 0) by (nonlinear_arith)
        requires sd <= u32::MAX, sn <= u32::MAX, md <= u32::MAX, mn <= u32::MAX, sd > 0, md > 0;
    let down = q.prescale && targets && sd * md < sn * mn;
    let (pn, pd): (u128, u128) = if down { (sd * md, sn * mn) } else { (1, 1) };
    assert(pn == pre_ratio(*q).0 && pd == pre_ratio(*q).1);
    assert(0 < pn <= pd <= u64::MAX);
    let min_pct = (100 * mn + md - 1) / md;
    assert(min_pct == min_pct_of(*q));
    assert(tw * sn <= u64::MAX && th * sn <= u64::MAX) by (nonlinear_arith)
        requires sn <= u32::MAX, tw <= u32::MAX, th <= u32::MAX;
    let cw0: u128 = if targets { tw * sn / sd } else { 0 };
    let ch0: u128 = if targets { th * sn / sd } else { 0 };
    proof {
        if targets {
            vstd::arithmetic::div_mod::lemma_div_is_ordered(tw * sn, u64::MAX as int, sd as int);
            vstd::arithmetic::div_mod::lemma_div_is_ordered(th * sn, u64::MAX as int, sd as int);
            vstd::arithmetic::div_mod::lemma_div_is_ordered_by_denominator(u64::MAX as int, 1, sd as int);
        }
    }
    assert(cw0 == base_crop(*q, q.target_width as int) && ch0 == base_crop(*q, q.target_height as int));
    assert(cw0 * pn <= u128::MAX && ch0 * pn <= u128::MAX && w * pn <= u128::MAX && h * pn <= u128::MAX)
        by (nonlinear_arith)
        requires cw0 <= u64::MAX, ch0 <= u64::MAX, pn <= u64::MAX, w <= u32::MAX, h <= u32::MAX;
    let cw = cw0 * pn / pd;
    let ch = ch0 * pn / pd;
    if min_pct > u32::MAX as u128 || cw > u32::MAX as u128 || ch > u32::MAX as u128 {
        return Err(CropError::NumericOverflow);
    }
    let ww = w * pn / pd;
    let wh = h * pn / pd;
    proof {
        assert(w * pn <= w * pd && h * pn <= h * pd) by (nonlinear_arith)
            requires pn <= pd, w >= 0, h >= 0;
        vstd::arithmetic::div_mod::lemma_div_is_ordered(w * pn, w * pd, pd as int);
        vstd::arithmetic::div_mod::lemma_div_is_ordered(h * pn, h * pd, pd as int);
        vstd::arithmetic::div_mod::lemma_div_by_multiple(w as int, pd as int);
        vstd::arithmetic::div_mod::lemma_div_by_multiple(h as int, pd as int);
        lemma_floor_property(w * pn, pd as int);
        lemma_floor_property(h * pn, pd as int);
        vstd::arithmetic::mul::lemma_mul_is_commutative(w as int, pn as int);
        vstd::arithmetic::mul::lemma_mul_is_commutative(h as int, pn as int);
        if pn == pd {
            vstd::arithmetic::div_mod::lemma_div_by_multiple(w as int, pn as int);
            vstd::arithmetic::div_mod::lemma_div_by_multiple(h as int, pn as int);
        }
    }
    Ok(Plan {
        image_width: q.image_width,
        image_height: q.image_height,
        scale_num: sn as u64,
        scale_den: sd as u64,
        min_num: mn as u64,
        min_den: md as u64,
        min_scale_pct: min_pct as u32,
        pre_num: pn as u64,
        pre_den: pd as u64,
        work_width: ww as u32,
        work_height: wh as u32,
        crop_width: cw as u32,
        crop_height: ch as u32,
    })
}

} // verus!
