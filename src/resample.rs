use vstd::prelude::*;
use crate::geometry::CropError;
use crate::plan::{Plan, wf};

verus! {

/// Relies on image::imageops::resize with FilterType::Lanczos3: an RGBA buffer
/// of exactly `nw` by `nh` pixels, and a plain copy when the size is kept.
/// The filtered values rest on the platform's `sin`, so nothing more is stated.
#[verifier::external_body]
fn resize_rgba(px: &Vec<u8>, w: u32, h: u32, nw: u32, nh: u32) -> (r: Vec<u8>)
    requires
        px@.len() == 4 * w * h,
        w > 0,
        h > 0,
        nw > 0,
        nh > 0,
        4 * nw * nh <= usize::MAX,
    ensures
        r@.len() == 4 * nw * nh,
        nw == w && nh == h ==> r@ == px@,
{
    let img = image::ImageBuffer::<image::Rgba<u8>, Vec<u8>>::from_raw(w, h, px.clone()).unwrap();
    image::imageops::resize(&img, nw, nh, image::imageops::FilterType::Lanczos3).into_raw()
}

/// The image that is analysed under a plan: the RGBA image resampled to the
/// working size when the plan downscales, the image itself when the working
/// size is the image size.
/// A working size with a zero side cannot be analysed.
pub fn prescale_image(px: &Vec<u8>, p: &Plan) -> (r: Result<Vec<u8>, CropError>)
    requires
        wf(*p),
        px@.len() == 4 * p.image_width * p.image_height,
    ensures
        r is Err <==> (p.work_width == 0 || p.work_height == 0),
        r is Err ==> r == Err::<Vec<u8>, CropError>(CropError::InvalidInput),
        r is Ok && p.work_width == p.image_width && p.work_height == p.image_height ==> r->Ok_0@ == px@,
        r is Ok ==> r->Ok_0@.len() == 4 * p.work_width * p.work_height,
{
    if p.work_width == 0 || p.work_height == 0 {
        return Err(CropError::InvalidInput);
    }
    proof {
        assert(p.work_width <= p.image_width && p.work_height <= p.image_height) by (nonlinear_arith)
            requires
                p.work_width * p.pre_den <= p.image_width * p.pre_num,
                p.work_height * p.pre_den <= p.image_height * p.pre_num,
                p.pre_num > 0,
                p.pre_den > 0,
                p.pre_num <= p.pre_den,
            ;
    }
    if p.pre_num < p.pre_den {
        let len = px.len();
        assert(len <= usize::MAX);
        assert(4 * p.work_width * p.work_height <= 4 * p.image_width * p.image_height) by (nonlinear_arith)
            requires p.work_width <= p.image_width, p.work_height <= p.image_height;
        Ok(resize_rgba(px, p.image_width, p.image_height, p.work_width, p.work_height))
    } else {
        Ok(px.clone())
    }
}

/// `len / factor`, rounded up.
pub open spec fn ceil_div(len: nat, factor: nat) -> nat {
    ((len + factor - 1) / factor as int) as nat
}

/// The feature buffer of a `w` by `h` image resampled for scoring to
/// `ceil(w / factor)` by `ceil(h / factor)`, returned with that size.
/// A zero factor or an empty image is refused.
pub fn downsample_features(fx: &Vec<u8>, w: u32, h: u32, factor: u32) -> (r: Result<(Vec<u8>, u32, u32), CropError>)
    requires
        fx@.len() == 4 * w * h,
    ensures
        r is Err <==> (factor == 0 || w == 0 || h == 0),
        r is Err ==> r == Err::<(Vec<u8>, u32, u32), CropError>(CropError::InvalidInput),
        r is Ok ==> ({
            let (v, nw, nh) = r->Ok_0;
            &&& nw == ceil_div(w as nat, factor as nat)
            &&& nh == ceil_div(h as nat, factor as nat)
            &&& (nw == w && nh == h ==> v@ == fx@)
            &&& v@.len() == 4 * nw * nh
        }),
{
    if factor == 0 || w == 0 || h == 0 {
        return Err(CropError::InvalidInput);
    }
    let aw: u64 = w as u64 + factor as u64 - 1;
    let ah: u64 = h as u64 + factor as u64 - 1;
    let qw: u64 = aw / factor as u64;
    let qh: u64 = ah / factor as u64;
    proof {
        vstd::arithmetic::div_mod::lemma_fundamental_div_mod(aw as int, factor as int);
        vstd::arithmetic::div_mod::lemma_fundamental_div_mod(ah as int, factor as int);
        vstd::arithmetic::div_mod::lemma_mod_pos_bound(aw as int, factor as int);
        vstd::arithmetic::div_mod::lemma_mod_pos_bound(ah as int, factor as int);
        vstd::arithmetic::div_mod::lemma_div_is_ordered(factor as int, aw as int, factor as int);
        vstd::arithmetic::div_mod::lemma_div_is_ordered(factor as int, ah as int, factor as int);
        vstd::arithmetic::div_mod::lemma_div_by_self(factor as int);
    }
    assert(qw <= w && qh <= h) by (nonlinear_arith)
        requires
            factor >= 1,
            aw == w + factor - 1,
            ah == h + factor - 1,
            aw >= factor * qw,
            ah >= factor * qh,
    ;
    let nw = qw as u32;
    let nh = qh as u32;
    let len = fx.len();
    assert(4 * nw * nh <= 4 * w * h) by (nonlinear_arith) requires nw <= w, nh <= h;
    let v = resize_rgba(fx, w, h, nw, nh);
    Ok((v, nw, nh))
}

} // verus!
