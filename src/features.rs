use vstd::prelude::*;

verus! {

/// Weighted brightness of a pixel in ten-thousandths:
/// `0.0722 * r + 0.7152 * g + 0.5126 * b`, times 10000.
pub open spec fn luma(r: u8, g: u8, b: u8) -> int {
    722 * r + 7152 * g + 5126 * b
}

/// Brightness of pixel `k` of an RGBA buffer, in ten-thousandths.
pub open spec fn luma_px(px: Seq<u8>, k: int) -> int {
    luma(px[4 * k], px[4 * k + 1], px[4 * k + 2])
}

/// Brightness of the pixel at `(x, y)` of an RGBA buffer `w` pixels wide.
pub open spec fn luma_at(px: Seq<u8>, w: int, x: int, y: int) -> int {
    luma_px(px, y * w + x)
}

/// Edge response at `(x, y)` in ten-thousandths: the brightness itself on the
/// border, else four times the brightness less that of the four neighbours.
pub open spec fn edge_value(px: Seq<u8>, w: int, h: int, x: int, y: int) -> int {
    if x == 0 || x >= w - 1 || y == 0 || y >= h - 1 {
        luma_at(px, w, x, y)
    } else {
        4 * luma_at(px, w, x, y) - luma_at(px, w, x - 1, y) - luma_at(px, w, x, y - 1)
            - luma_at(px, w, x, y + 1) - luma_at(px, w, x + 1, y)
    }
}

/// A value in ten-thousandths clamped to `[0, 255]` and rounded down.
pub open spec fn clamp_channel(v: int) -> u8 {
    if v < 0 {
        0
    } else if v > 2550000 {
        255
    } else {
        (v / 10000) as u8
    }
}

/// Brightness of a pixel in ten-thousandths.
pub fn luma_of(r: u8, g: u8, b: u8) -> (l: u32)
    ensures
        l == luma(r, g, b),
{
    722 * r as u32 + 7152 * g as u32 + 5126 * b as u32
}

/// Brightness of pixel `k` of an RGBA buffer.
fn pixel_luma(px: &Vec<u8>, k: usize) -> (l: i64)
    requires
        4 * k + 3 < px@.len(),
    ensures
        l == luma_px(px@, k as int),
{
    let n = px.len();
    assert(n <= usize::MAX);
    luma_of(px[4 * k], px[4 * k + 1], px[4 * k + 2]) as i64
}

/// The detail channel of a `w` by `h` RGBA image: for each pixel in row-major
/// order, its edge response clamped to `[0, 255]`.
pub fn detail_channel(px: &Vec<u8>, w: u32, h: u32) -> (r: Vec<u8>)
    requires
        px@.len() == 4 * w * h,
        4 * w * h <= usize::MAX,
    ensures
        r@.len() == w * h,
        forall|y: int, x: int| 0 <= y < h && 0 <= x < w
            ==> #[trigger] r@[y * w + x] == clamp_channel(edge_value(px@, w as int, h as int, x, y)),
{
    let wu = w as usize;
    let hu = h as usize;
    let mut out: Vec<u8> = Vec::new();
    let mut y: usize = 0;
    while y < hu
        invariant
            wu == w,
            hu == h,
            px@.len() == 4 * w * h,
            4 * w * h <= usize::MAX,
            y <= h,
            out@.len() == y * w,
            forall|yy: int, x: int| 0 <= yy < y && 0 <= x < w
                ==> #[trigger] out@[yy * w + x] == clamp_channel(edge_value(px@, w as int, h as int, x, yy)),
        decreases h - y,
    {
        let mut x: usize = 0;
        while x < wu
            invariant
                wu == w,
                hu == h,
                px@.len() == 4 * w * h,
                4 * w * h <= usize::MAX,
                y < h,
                x <= w,
                out@.len() == y * w + x,
                forall|yy: int, xx: int| 0 <= yy < y && 0 <= xx < w
                    ==> #[trigger] out@[yy * w + xx] == clamp_channel(edge_value(px@, w as int, h as int, xx, yy)),
                forall|xx: int| 0 <= xx < x
                    ==> #[trigger] out@[y * w + xx] == clamp_channel(edge_value(px@, w as int, h as int, xx, y as int)),
            decreases w - x,
        {
            assert(y * w + x < w * h && 4 * (y * w + x) + 3 < 4 * w * h) by (nonlinear_arith)
                requires y < h, x < w;
            let k: usize = y * wu + x;
            let c = pixel_luma(px, k);
            let v: i64 = if x == 0 || x >= wu - 1 || y == 0 || y >= hu - 1 {
                c
            } else {
                assert(k - w == (y - 1) * w + x && k + w == (y + 1) * w + x && (y + 1) * w + x < w * h
                    && 4 * (k + w) + 3 < 4 * w * h && 4 * (k + 1) + 3 < 4 * w * h && k >= w)
                    by (nonlinear_arith) requires k == y * w + x, y + 1 < h, x + 1 < w, y >= 1;
                4 * c - pixel_luma(px, k - 1) - pixel_luma(px, k - wu) - pixel_luma(px, k + wu)
                    - pixel_luma(px, k + 1)
            };
            assert(v == edge_value(px@, w as int, h as int, x as int, y as int));
            let d: u8 = if v < 0 {
                0
            } else if v > 2550000 {
                255
            } else {
                (v / 10000) as u8
            };
            let ghost before = out@;
            out.push(d);
            proof {
                assert forall|yy: int, xx: int| 0 <= yy < y && 0 <= xx < w
                    implies #[trigger] out@[yy * w + xx] == clamp_channel(edge_value(px@, w as int, h as int, xx, yy)) by {
                    assert(yy * w + xx < y * w) by (nonlinear_arith) requires yy < y, xx < w;
                    assert(out@[yy * w + xx] == before[yy * w + xx]);
                }
            }
            x = x + 1;
        }
        proof {
            assert forall|yy: int, xx: int| 0 <= yy < y + 1 && 0 <= xx < w
                implies #[trigger] out@[yy * w + xx] == clamp_channel(edge_value(px@, w as int, h as int, xx, yy)) by {
                if yy == y {
                    assert(out@[y * w + xx] == clamp_channel(edge_value(px@, w as int, h as int, xx, y as int)));
                }
            }
            assert((y + 1) * w == y * w + w) by (nonlinear_arith);
        }
        y = y + 1;
    }
    assert(y * w == w * h) by (nonlinear_arith) requires y == h;
    out
}

/// HSL saturation of a pixel as (numerator, denominator): with `mx` and `mn`
/// the largest and smallest channel, 0 for a gray pixel, else
/// `(mx - mn) / (mx + mn)` when the lightness is at most one half and
/// `(mx - mn) / (510 - mx - mn)` above it.
pub open spec fn hsl_saturation(r: u8, g: u8, b: u8) -> (int, int) {
    let mx = if r >= g && r >= b { r } else if g >= b { g } else { b };
    let mn = if r <= g && r <= b { r } else if g <= b { g } else { b };
    if mx == mn {
        (0, 1)
    } else if mx + mn > 255 {
        (mx - mn, 510 - mx - mn)
    } else {
        (mx - mn, mx + mn)
    }
}

/// HSL saturation of a pixel as an exact fraction with a positive denominator.
pub fn saturation(r: u8, g: u8, b: u8) -> (s: (u32, u32))
    ensures
        s.0 == hsl_saturation(r, g, b).0,
        s.1 == hsl_saturation(r, g, b).1,
        s.1 > 0,
        s.0 <= s.1,
        r == g && g == b ==> s.0 == 0,
{
    let mx: u32 = if r >= g && r >= b { r as u32 } else if g >= b { g as u32 } else { b as u32 };
    let mn: u32 = if r <= g && r <= b { r as u32 } else if g <= b { g as u32 } else { b as u32 };
    if mx == mn {
        (0, 1)
    } else if mx + mn > 255 {
        (mx - mn, 510 - mx - mn)
    } else {
        (mx - mn, mx + mn)
    }
}

/// A gray pixel, whatever its level, has no saturation.
pub proof fn lemma_gray_unsaturated(v: u8)
    ensures
        hsl_saturation(v, v, v).0 == 0,
{
}

/// Packs three per-pixel channels into one RGBA feature buffer: skin in the
/// first channel, detail in the second, saturation in the third and an
/// opaque fourth channel.
pub fn pack_features(skin: &Vec<u8>, detail: &Vec<u8>, sat: &Vec<u8>) -> (r: Vec<u8>)
    requires
        skin@.len() == detail@.len(),
        sat@.len() == detail@.len(),
        4 * detail@.len() <= usize::MAX,
    ensures
        r@.len() == 4 * detail@.len(),
        forall|k: int| 0 <= k < detail@.len() ==> {
            &&& #[trigger] r@[4 * k] == skin@[k]
            &&& r@[4 * k + 1] == detail@[k]
            &&& r@[4 * k + 2] == sat@[k]
            &&& r@[4 * k + 3] == 255
        },
{
    let mut out: Vec<u8> = Vec::new();
    let mut k: usize = 0;
    while k < detail.len()
        invariant
            skin@.len() == detail@.len(),
            sat@.len() == detail@.len(),
            k <= detail@.len(),
            out@.len() == 4 * k,
            forall|j: int| 0 <= j < k ==> {
                &&& #[trigger] out@[4 * j] == skin@[j]
                &&& out@[4 * j + 1] == detail@[j]
                &&& out@[4 * j + 2] == sat@[j]
                &&& out@[4 * j + 3] == 255
            },
        decreases detail@.len() - k,
    {
        let ghost before = out@;
        out.push(skin[k]);
        out.push(detail[k]);
        out.push(sat[k]);
        out.push(255);
        assert forall|j: int| 0 <= j < k + 1 implies {
            &&& #[trigger] out@[4 * j] == skin@[j]
            &&& out@[4 * j + 1] == detail@[j]
            &&& out@[4 * j + 2] == sat@[j]
            &&& out@[4 * j + 3] == 255
        } by {
            if j < k {
                assert(out@[4 * j] == before[4 * j]);
                assert(out@[4 * j + 1] == before[4 * j + 1]);
                assert(out@[4 * j + 2] == before[4 * j + 2]);
                assert(out@[4 * j + 3] == before[4 * j + 3]);
            }
        }
        k = k + 1;
    }
    out
}

} // verus!
