use smartcrop::candidates::{crops, plan_candidates, scale_list};
use smartcrop::features::{detail_channel, luma_of, pack_features, saturation};
use smartcrop::finish::finish;
use smartcrop::geometry::{CropError, CropSize};
use smartcrop::plan::{plan, rescale, Plan, Request};
use smartcrop::resample::{downsample_features, prescale_image};
use smartcrop::select::select_top;

fn request(w: u32, h: u32, tw: u32, th: u32, prescale: bool) -> Request {
    Request {
        image_width: w,
        image_height: h,
        target_width: tw,
        target_height: th,
        min_scale_pct: 90,
        max_scale_pct: 100,
        prescale,
    }
}

fn rect(x: u32, y: u32, width: u32, height: u32) -> CropSize {
    CropSize { x, y, width, height }
}

fn gray(w: u32, h: u32, v: u8) -> Vec<u8> {
    let mut px = Vec::new();
    for _ in 0..(w * h) {
        px.extend_from_slice(&[v, v, v, 255]);
    }
    px
}

#[test]
fn plan_square_target_on_square_image() {
    let p = plan(&request(100, 100, 50, 50, true)).unwrap();
    assert_eq!((p.scale_num, p.scale_den), (100, 50));
    assert_eq!((p.min_num, p.min_den), (90, 100));
    assert_eq!(p.min_scale_pct, 90);
    assert_eq!((p.pre_num, p.pre_den), (5000, 9000));
    assert_eq!((p.work_width, p.work_height), (55, 55));
    assert_eq!((p.crop_width, p.crop_height), (55, 55));
}

#[test]
fn plan_without_prescale_keeps_size() {
    let p = plan(&request(100, 100, 50, 50, false)).unwrap();
    assert_eq!((p.pre_num, p.pre_den), (1, 1));
    assert_eq!((p.work_width, p.work_height), (100, 100));
    assert_eq!((p.crop_width, p.crop_height), (100, 100));
}

#[test]
fn plan_raises_min_scale_to_avoid_upscaling() {
    // image 100x100, target 95x95: 1/scale = 0.95 is above the configured 0.9
    let p = plan(&request(100, 100, 95, 95, true)).unwrap();
    assert_eq!((p.min_num, p.min_den), (95, 100));
    assert_eq!(p.min_scale_pct, 95);
    assert_eq!((p.pre_num, p.pre_den), (1, 1));
    assert_eq!((p.crop_width, p.crop_height), (100, 100));
}

#[test]
fn plan_wide_image_is_bounded_by_height() {
    let p = plan(&request(200, 100, 10, 10, false)).unwrap();
    assert_eq!((p.scale_num, p.scale_den), (100, 10));
    assert_eq!((p.crop_width, p.crop_height), (100, 100));
}

#[test]
fn plan_unset_target() {
    let p = plan(&request(40, 30, 0, 0, true)).unwrap();
    assert_eq!((p.scale_num, p.scale_den), (1, 1));
    assert_eq!((p.crop_width, p.crop_height), (0, 0));
    assert_eq!((p.work_width, p.work_height), (40, 30));
    assert_eq!(p.min_scale_pct, 90);
}

#[test]
fn plan_rejects_empty_image() {
    assert_eq!(plan(&request(0, 10, 5, 5, true)), Err(CropError::InvalidInput));
    assert_eq!(plan(&request(10, 0, 5, 5, true)), Err(CropError::InvalidInput));
}

#[test]
fn scale_list_descends() {
    assert_eq!(scale_list(90, 100, 10), vec![100, 90]);
    assert_eq!(scale_list(50, 100, 25), vec![100, 75, 50]);
    assert_eq!(scale_list(0, 35, 10), vec![30, 20, 10, 0]);
    assert_eq!(scale_list(95, 100, 10), vec![100]);
    assert_eq!(scale_list(60, 50, 10), Vec::<u32>::new());
}

#[test]
fn crops_enumerate_scale_then_row_then_column() {
    let r = crops(20, 12, 8, 8, &vec![100, 50], 4);
    let expected = vec![
        rect(0, 0, 8, 8), rect(4, 0, 8, 8), rect(8, 0, 8, 8), rect(12, 0, 8, 8),
        rect(0, 4, 8, 8), rect(4, 4, 8, 8), rect(8, 4, 8, 8), rect(12, 4, 8, 8),
        rect(0, 0, 4, 4), rect(4, 0, 4, 4), rect(8, 0, 4, 4), rect(12, 0, 4, 4), rect(16, 0, 4, 4),
        rect(0, 4, 4, 4), rect(4, 4, 4, 4), rect(8, 4, 4, 4), rect(12, 4, 4, 4), rect(16, 4, 4, 4),
        rect(0, 8, 4, 4), rect(4, 8, 4, 4), rect(8, 8, 4, 4), rect(12, 8, 4, 4), rect(16, 8, 4, 4),
    ];
    assert_eq!(r, expected);
}

#[test]
fn crops_default_to_square_of_shorter_side() {
    let r = crops(30, 10, 0, 0, &vec![100], 10);
    assert_eq!(r, vec![rect(0, 0, 10, 10), rect(10, 0, 10, 10), rect(20, 0, 10, 10)]);
}

#[test]
fn oversized_crop_gives_no_crop_found() {
    let cands = crops(10, 10, 20, 20, &vec![100, 90], 8);
    assert!(cands.is_empty());
    let p = plan(&request(10, 10, 0, 0, false)).unwrap();
    assert_eq!(finish(&p, &cands, &vec![]), Err(CropError::NoCropFound));
    assert_eq!(select_top(&vec![]), Err(CropError::NoCropFound));
}

#[test]
fn select_keeps_first_of_equal_maxima() {
    assert_eq!(select_top(&vec![3, 5, 5, 1]), Ok(1));
    assert_eq!(select_top(&vec![7, 7, 7]), Ok(0));
    assert_eq!(select_top(&vec![-4, -2, -9]), Ok(1));
    assert_eq!(select_top(&vec![i64::MIN]), Ok(0));
}

#[test]
fn uniform_image_picks_largest_scale_top_left() {
    let p = plan(&request(100, 100, 50, 50, true)).unwrap();
    let cands = plan_candidates(&p, 100, 10, 8);
    assert_eq!(cands, vec![rect(0, 0, 55, 55), rect(0, 0, 49, 49)]);
    let keys = vec![0i64; cands.len()];
    let s = finish(&p, &cands, &keys).unwrap();
    assert_eq!(s.top_index, 0);
    assert_eq!(s.top_crop, rect(0, 0, 99, 99));
    assert_eq!(s.crops, vec![rect(0, 0, 99, 99), rect(0, 0, 88, 88)]);
}

#[test]
fn finish_rejects_mismatched_keys() {
    let p = plan(&request(10, 10, 0, 0, false)).unwrap();
    let cands = vec![rect(0, 0, 10, 10)];
    assert_eq!(finish(&p, &cands, &vec![1, 2]), Err(CropError::InvalidInput));
}

#[test]
fn rescaled_top_stays_inside_image() {
    let p = plan(&request(333, 211, 64, 64, true)).unwrap();
    let cands = plan_candidates(&p, 100, 10, 8);
    assert!(!cands.is_empty());
    let keys: Vec<i64> = (0..cands.len() as i64).map(|i| (i * 37) % 11).collect();
    let s = finish(&p, &cands, &keys).unwrap();
    for c in s.crops.iter().chain(std::iter::once(&s.top_crop)) {
        assert!(c.x + c.width <= 333);
        assert!(c.y + c.height <= 211);
    }
}

#[test]
fn rescale_divides_by_prescale_factor() {
    let p = Plan {
        image_width: 100,
        image_height: 100,
        scale_num: 2,
        scale_den: 1,
        min_num: 9,
        min_den: 10,
        min_scale_pct: 90,
        pre_num: 5,
        pre_den: 9,
        work_width: 55,
        work_height: 55,
        crop_width: 55,
        crop_height: 55,
    };
    assert_eq!(rescale(&rect(8, 16, 49, 49), &p), rect(14, 28, 88, 88));
}

#[test]
fn luma_weights() {
    assert_eq!(luma_of(1, 0, 0), 722);
    assert_eq!(luma_of(0, 1, 0), 7152);
    assert_eq!(luma_of(0, 0, 1), 5126);
    assert_eq!(luma_of(100, 100, 100), 1_300_000);
}

#[test]
fn detail_of_uniform_and_spot() {
    let px = gray(3, 3, 100);
    let d = detail_channel(&px, 3, 3);
    // border pixels keep their brightness (130), the center has no edge
    assert_eq!(d, vec![130, 130, 130, 130, 0, 130, 130, 130, 130]);
    let mut spot = gray(3, 3, 0);
    spot[4 * 4] = 10;
    spot[4 * 4 + 1] = 10;
    spot[4 * 4 + 2] = 10;
    let d = detail_channel(&spot, 3, 3);
    assert_eq!(d[4], 52);
    let mut bright = gray(3, 3, 255);
    bright[4 * 4 + 1] = 0;
    let d = detail_channel(&bright, 3, 3);
    assert_eq!(d[0], 255);
    assert_eq!(d[4], 0);
}

#[test]
fn saturation_fractions() {
    assert_eq!(saturation(255, 0, 0), (255, 255));
    assert_eq!(saturation(255, 128, 128), (127, 127));
    assert_eq!(saturation(100, 50, 50), (50, 150));
    assert_eq!(saturation(0, 0, 200), (200, 200));
}

#[test]
fn saturation_of_gray_is_zero() {
    for v in [0u8, 1, 77, 128, 254, 255] {
        assert_eq!(saturation(v, v, v).0, 0);
    }
}

#[test]
fn pack_orders_skin_detail_saturation() {
    let r = pack_features(&vec![1, 2], &vec![3, 4], &vec![5, 6]);
    assert_eq!(r, vec![1, 3, 5, 255, 2, 4, 6, 255]);
}

#[test]
fn downsample_rounds_size_up() {
    let fx = gray(17, 9, 200);
    let (v, w, h) = downsample_features(&fx, 17, 9, 8).unwrap();
    assert_eq!((w, h), (3, 2));
    assert_eq!(v.len(), 4 * 3 * 2);
    for c in v.chunks(4) {
        assert!(c[0] >= 199 && c[0] <= 201);
    }
    assert_eq!(downsample_features(&fx, 17, 9, 0), Err(CropError::InvalidInput));
}

#[test]
fn prescale_shrinks_to_working_size() {
    let px = gray(100, 100, 50);
    let p = plan(&request(100, 100, 50, 50, true)).unwrap();
    let v = prescale_image(&px, &p).unwrap();
    assert_eq!(v.len(), 4 * 55 * 55);
    let q = plan(&request(100, 100, 50, 50, false)).unwrap();
    assert_eq!(prescale_image(&px, &q).unwrap(), px);
}

#[test]
fn crops_use_exact_scaled_size_for_fit() {
    // 55 * 0.9 = 49.5 does not fit in 49, though its floor 49 would
    assert!(crops(49, 49, 55, 55, &vec![90], 8).is_empty());
    assert_eq!(crops(50, 50, 55, 55, &vec![90], 8), vec![rect(0, 0, 49, 49)]);
}

#[test]
fn rows_stop_where_exact_height_overflows() {
    let p = plan(&request(200, 116, 100, 56, false)).unwrap();
    assert_eq!((p.crop_width, p.crop_height), (200, 112));
    let cands = plan_candidates(&p, 100, 10, 8);
    assert_eq!(
        cands,
        vec![
            rect(0, 0, 200, 112),
            rect(0, 0, 180, 100), rect(8, 0, 180, 100), rect(16, 0, 180, 100),
            rect(0, 8, 180, 100), rect(8, 8, 180, 100), rect(16, 8, 180, 100),
        ]
    );
}
