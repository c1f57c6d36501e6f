use kornia_3d::camera::PinholeCamera;
use kornia_3d::pose::Pose3d;
use kornia_algebra::{Vec2F32, Vec3F64};
use kornia_image::{Image, ImageSize};
use kornia_imgproc::features::{OrbDetector, OrbFeatures};
use kornia_slam::frame::Frame;
use kornia_slam::stereo::{
    compute_stereo_matches, find_sad_optimum, place_match, unproject_stereo, GrayImage,
    LeftKeypoint, RowBand, SadOptimum, StereoGeometry, StereoMatchConfig, StereoMatches,
};

const ORB_SCALE_FACTOR: f32 = 1.2;
const ORB_N_LEVELS: usize = 8;

/// Deterministic high-frequency texture so FAST finds plenty of corners.
fn noise(x: usize, y: usize) -> u8 {
    let h = (x as u32)
        .wrapping_mul(374_761_393)
        .wrapping_add((y as u32).wrapping_mul(668_265_263));
    let h = (h ^ (h >> 13)).wrapping_mul(1_274_126_177);
    (h >> 16) as u8
}

/// Small independent per-view dither so the SAD correlation error is
/// strictly positive (an exact-shift pair has zero SAD at the true
/// disparity, which would make the median outlier reject discard
/// everything).
fn dither(seed: u32, x: usize, y: usize) -> i32 {
    let h = (x as u32)
        .wrapping_mul(2_246_822_519)
        .wrapping_add((y as u32).wrapping_mul(3_266_489_917))
        .wrapping_add(seed.wrapping_mul(668_265_263));
    let h = h ^ (h >> 15);
    (h % 11) as i32 - 5 // [-5, 5]
}

/// A left image, and a right image that is the left shifted left by `disparity` px, each
/// with a small, independent dither.
fn synthetic_pair(width: usize, height: usize, disparity: usize) -> (Image<u8, 1>, Image<u8, 1>) {
    let mut left = vec![0u8; width * height];
    let mut right = vec![0u8; width * height];
    for y in 0..height {
        for x in 0..width {
            left[y * width + x] = (noise(x, y) as i32 + dither(1, x, y)).clamp(0, 255) as u8;
            let sx = x + disparity;
            let base = if sx < width { noise(sx, y) as i32 } else { 0 };
            right[y * width + x] = (base + dither(2, x, y)).clamp(0, 255) as u8;
        }
    }
    let size = ImageSize { width, height };
    (
        Image::from_size_slice(size, &left).unwrap(),
        Image::from_size_slice(size, &right).unwrap(),
    )
}

struct Rig {
    bf: f32,
    baseline: f32,
    scales: Vec<f32>,
}

impl Rig {
    fn new(baseline: f32, fx: f32) -> Rig {
        Rig {
            bf: baseline * fx,
            baseline,
            scales: (0..ORB_N_LEVELS).map(|o| ORB_SCALE_FACTOR.powi(o as i32)).collect(),
        }
    }

    fn inv(&self, octave: usize) -> f32 {
        self.scales.get(octave).map(|s| 1.0 / s).unwrap_or(1.0)
    }
}

fn gray(image: &Image<u8, 1>) -> GrayImage<'_> {
    GrayImage {
        width: image.width(),
        height: image.height(),
        pixels: image.as_slice(),
    }
}

fn matches_of(
    left_img: &Image<u8, 1>,
    right_img: &Image<u8, 1>,
    left: &OrbFeatures,
    right: &OrbFeatures,
    rig: &Rig,
) -> StereoMatches {
    let max_d = rig.bf / rig.baseline;
    let left_keypoints: Vec<LeftKeypoint> = left
        .keypoints_xy
        .iter()
        .zip(&left.octaves)
        .map(|(kp, octave)| LeftKeypoint {
            row: kp[1] as i32,
            min_u: (kp[0] - max_d).to_bits(),
            scaled_u: (kp[0] * rig.inv(*octave as usize)).round() as i32,
            scaled_v: (kp[1] * rig.inv(*octave as usize)).round() as i32,
        })
        .collect();
    let bands: Vec<RowBand> = right
        .keypoints_xy
        .iter()
        .zip(&right.octaves)
        .map(|(kp, octave)| {
            let r = 2.0 * rig.scales.get(*octave as usize).copied().unwrap_or(1.0);
            RowBand {
                first: (kp[1] - r).floor() as i32,
                last: (kp[1] + r).ceil() as i32,
            }
        })
        .collect();
    let geometry = StereoGeometry {
        max_disparity: max_d.to_bits(),
        scaled_right: |ir: usize, octave: usize| {
            (right.keypoints_xy[ir][0] * rig.inv(octave)).round() as i32
        },
        refine: |il: usize, octave: usize, o: SadOptimum| {
            let (d1, d2, d3) = (o.before as f32, o.best as f32, o.after as f32);
            let delta = (d1 - d3) / (2.0 * (d1 + d3 - 2.0 * d2));
            let u_r = rig.scales[octave] * (o.start as f32 + o.offset as f32 + delta);
            Vec2F32::new(u_r, left.keypoints_xy[il][0] - u_r)
        },
        smallest: |il: usize| Vec2F32::new(left.keypoints_xy[il][0] - 0.01, 0.01),
        place: |used: &Vec2F32| Vec2F32::new(used.x, rig.bf / used.y),
    };
    compute_stereo_matches(
        &[gray(left_img)],
        &[gray(right_img)],
        left,
        right,
        &left_keypoints,
        &bands,
        &StereoMatchConfig::new(),
        &geometry,
    )
}

#[test]
fn recovers_depth_from_known_disparity() {
    let (width, height, disparity) = (320usize, 240usize, 8usize);
    let (left_img, right_img) = synthetic_pair(width, height, disparity);

    let detector = OrbDetector {
        n_keypoints: 800,
        ..Default::default()
    };
    let left = detector.detect_and_extract_u8(&left_img).unwrap();
    let right = detector.detect_and_extract_u8(&right_img).unwrap();
    assert!(left.keypoints_xy.len() > 50, "too few left keypoints");

    // Pyramids: only level 0 supplied; octave>0 keypoints are skipped.
    let rig = Rig::new(0.1, 200.0);
    let expected_depth = rig.bf / disparity as f32; // 20 / 8 = 2.5

    let result = matches_of(&left_img, &right_img, &left, &right, &rig);
    assert_eq!(result.found.len(), left.keypoints_xy.len());

    let mut depths: Vec<f32> = result.found.iter().flatten().map(|p| p.y).collect();
    assert!(
        depths.len() >= 20,
        "expected many stereo matches, got {}",
        depths.len()
    );
    assert_eq!(depths.len(), result.num_matched());

    depths.sort_by(|a, b| a.total_cmp(b));
    let median = depths[depths.len() / 2];
    assert!(
        (median - expected_depth).abs() < 0.1,
        "median depth {median} not near expected {expected_depth}"
    );

    // The match should be at uL - disparity (within ~1px).
    for (il, found) in result.found.iter().enumerate() {
        if let Some(found) = found {
            let ul = left.keypoints_xy[il][0];
            let ur = found.x;
            assert!(
                (ul - ur - disparity as f32).abs() < 1.5,
                "disparity off: uL={ul} uR={ur}"
            );
        }
    }
}

#[test]
fn unproject_stereo_back_projects_valid_depths() {
    let camera = PinholeCamera {
        fx: 100.0,
        fy: 100.0,
        cx: 0.0,
        cy: 0.0,
        k1: 0.0,
        k2: 0.0,
        p1: 0.0,
        p2: 0.0,
    };
    let frame = Frame {
        idx: 0,
        features: OrbFeatures {
            keypoints_xy: vec![[100.0, 0.0], [0.0, 200.0], [50.0, 50.0]],
            orientations: vec![0.0; 3],
            descriptors: vec![[0u8; 32]; 3],
            octaves: vec![0; 3],
        },
        pose_world_to_cam: Pose3d::IDENTITY,
        image_size: ImageSize {
            width: 640,
            height: 480,
        },
        keypoint_colors: vec![[0; 3]; 3],
        stereo: vec![
            Some(Vec2F32::new(95.0, 5.0)),
            None,
            Some(Vec2F32::new(45.0, 2.0)),
        ],
    };

    let pts = unproject_stereo(&frame, |i: usize, found: &Vec2F32| {
        let kp = frame.features.keypoints_xy[i];
        let z = found.y as f64;
        Vec3F64::new(
            (kp[0] as f64 - camera.cx) / camera.fx * z,
            (kp[1] as f64 - camera.cy) / camera.fy * z,
            z,
        )
    });
    // Keypoint 1 has no match and is skipped.
    assert_eq!(pts.len(), 2);
    assert_eq!(pts[0].0, 0);
    let p0 = pts[0].1;
    assert!((p0.x - 5.0).abs() < 1e-9 && p0.y.abs() < 1e-9 && (p0.z - 5.0).abs() < 1e-9);
    let p2 = pts[1].1;
    assert_eq!(pts[1].0, 2);
    assert!((p2.z - 2.0).abs() < 1e-9 && (p2.x - 1.0).abs() < 1e-9 && (p2.y - 1.0).abs() < 1e-9);
}

#[test]
fn no_right_keypoints_yields_no_matches() {
    let (left_img, right_img) = synthetic_pair(160, 120, 6);
    let detector = OrbDetector {
        n_keypoints: 300,
        ..Default::default()
    };
    let left = detector.detect_and_extract_u8(&left_img).unwrap();
    let right = OrbFeatures {
        keypoints_xy: Vec::new(),
        orientations: Vec::new(),
        descriptors: Vec::new(),
        octaves: Vec::new(),
    };

    let rig = Rig::new(0.1, 200.0);
    let result = matches_of(&left_img, &right_img, &left, &right, &rig);
    assert_eq!(result.num_matched(), 0);
    assert_eq!(result.found.len(), left.keypoints_xy.len());
    assert!(result.found.iter().all(|found| found.is_none()));
}

/// An image whose pixels depend on the column alone.
fn columns(width: usize, height: usize, value: impl Fn(usize) -> u8) -> Vec<u8> {
    (0..width * height).map(|i| value(i % width)).collect()
}

#[test]
fn sliding_search_finds_the_shift() {
    let bump = |x: usize| if x == 30 { 200 } else { 10 };
    let left = columns(60, 20, bump);
    let right = columns(60, 20, |x| bump(x + 2));
    let image = |pixels: &'static [u8]| GrayImage {
        width: 60,
        height: 20,
        pixels,
    };
    let left = image(Box::leak(left.into_boxed_slice()));
    let right = image(Box::leak(right.into_boxed_slice()));
    // The bump is at column 30 on the left and at column 28 on the right.
    let found = find_sad_optimum(&left, &right, 10, 30, 29).unwrap();
    assert_eq!(
        found,
        SadOptimum {
            start: 29,
            offset: -1,
            before: 11 * 2 * 190,
            best: 0,
            after: 11 * 2 * 190,
        }
    );
    // Out of the search range: the best place is not inside.
    assert_eq!(find_sad_optimum(&left, &right, 10, 30, 33), None);
    // A patch is not inside its image.
    assert_eq!(find_sad_optimum(&left, &right, 4, 30, 29), None);
    assert_eq!(find_sad_optimum(&left, &right, 15, 30, 29), None);
    assert_eq!(find_sad_optimum(&left, &right, 10, 4, 29), None);
    assert_eq!(find_sad_optimum(&left, &right, 10, 55, 29), None);
    assert_eq!(find_sad_optimum(&left, &right, 10, 30, 9), None);
    assert_eq!(find_sad_optimum(&left, &right, 10, 30, 49), None);
}

#[test]
fn gross_outliers_are_dropped() {
    // Three left keypoints with their own right keypoints; the third is a bad place.
    let features = |x: f32| OrbFeatures {
        keypoints_xy: vec![[x, 10.0]; 3],
        orientations: vec![0.0; 3],
        descriptors: vec![[0u8; 32], [0xFF; 32], [0x0F; 32]],
        octaves: vec![0; 3],
    };
    let (w, h) = (80usize, 20usize);
    let base = |x: usize| ((x * 37) % 101) as u8;
    let left = columns(w, h, base);
    let mut right = columns(w, h, base);
    for v in 0..h {
        right[v * w + 20] += 1;
        right[v * w + 40] += 1;
        right[v * w + 60] = 255;
    }
    let image = |pixels: &'static [u8]| GrayImage {
        width: w,
        height: h,
        pixels,
    };
    let left_img = [image(Box::leak(left.into_boxed_slice()))];
    let right_img = [image(Box::leak(right.into_boxed_slice()))];
    let kp = |u: i32| LeftKeypoint {
        row: 10,
        min_u: (-50.0f32).to_bits(),
        scaled_u: u,
        scaled_v: 10,
    };
    let keypoints = [kp(20), kp(40), kp(60)];
    let bands = [RowBand { first: 8, last: 12 }; 3];
    let geometry = StereoGeometry {
        max_disparity: 1e6f32.to_bits(),
        scaled_right: |ir: usize, _: usize| 20 * (ir as i32 + 1),
        refine: |_: usize, _: usize, o: SadOptimum| Vec2F32::new(o.offset as f32, o.best as f32),
        smallest: |_: usize| Vec2F32::new(-1.0, -1.0),
        place: |used: &Vec2F32| *used,
    };
    let run_at = |left: f32, keypoints: &[LeftKeypoint], bands: &[RowBand], config: &StereoMatchConfig| {
        compute_stereo_matches(
            &left_img,
            &right_img,
            &features(left),
            &features(-2.0),
            keypoints,
            bands,
            config,
            &geometry,
        )
        .found
    };
    let run = |keypoints: &[LeftKeypoint], bands: &[RowBand], config: &StereoMatchConfig| {
        run_at(0.0, keypoints, bands, config)
    };
    let found = run(&keypoints, &bands, &StereoMatchConfig::new());
    assert_eq!(found[0], Some(Vec2F32::new(0.0, 11.0)));
    assert_eq!(found[1], Some(Vec2F32::new(0.0, 11.0)));
    assert_eq!(found[2], None);
    // Left of the image, out of the rows, or a threshold that nothing passes.
    assert!(run_at(-1.0, &keypoints, &bands, &StereoMatchConfig::new()).iter().all(|f| f.is_none()));
    // Beyond either end of the disparity band, and on its first end.
    let mut far = keypoints;
    far[0].min_u = (-1.5f32).to_bits();
    far[1].min_u = (-2.0f32).to_bits();
    let found = run(&far, &bands, &StereoMatchConfig::new());
    assert_eq!(found[0], None);
    assert_eq!(found[1], Some(Vec2F32::new(0.0, 11.0)));
    assert!(run_at(-3.0, &keypoints, &bands, &StereoMatchConfig::new()).iter().all(|f| f.is_none()));
    let mut elsewhere = bands;
    elsewhere[1] = RowBand { first: 11, last: 30 };
    assert_eq!(run(&keypoints, &elsewhere, &StereoMatchConfig::new())[1], None);
    let strict = StereoMatchConfig { th_orb_dist: 0, th_high: 100 };
    assert!(run(&keypoints, &bands, &strict).iter().all(|f| f.is_none()));
}

#[test]
fn disparities_are_tested_and_kept_positive() {
    let geometry = StereoGeometry {
        max_disparity: 8.0f32.to_bits(),
        scaled_right: |_: usize, _: usize| 0,
        refine: |_: usize, _: usize, _: SadOptimum| Vec2F32::new(0.0, 0.0),
        smallest: |il: usize| Vec2F32::new(il as f32 - 0.01, 0.01),
        place: |used: &Vec2F32| Vec2F32::new(used.x, 4.0 / used.y),
    };
    let at = |disparity: f32| place_match(&geometry, 3, Vec2F32::new(2.0, disparity));
    assert_eq!(at(2.0), Some(Vec2F32::new(2.0, 2.0)));
    assert_eq!(at(7.5), Some(Vec2F32::new(2.0, 4.0 / 7.5)));
    // Zero, of either sign, gives way to the smallest disparity.
    assert_eq!(at(0.0), Some(Vec2F32::new(3.0 - 0.01, 4.0 / 0.01)));
    assert_eq!(at(-0.0), Some(Vec2F32::new(3.0 - 0.01, 4.0 / 0.01)));
    assert_eq!(at(8.0), None);
    assert_eq!(at(-0.5), None);
    assert_eq!(at(f32::NAN), None);
}
