use kornia_3d::camera::PinholeCamera;
use kornia_3d::pose::Pose3d;
use kornia_algebra::{Mat3F64, Vec2F64, Vec3F64};
use kornia_apriltag::family::TagFamily;
use kornia_slam::apriltag_anchor::{
    find_best_detection, AprilTagAnchor, AprilTagAnchorConfig, AprilTagAnchorError, TagDetection,
    TagFamilyKind, TagObservation,
};
use kornia_slam::gray_image::GrayImage;

fn canonical_corners(tag_size_m: f64) -> [Vec3F64; 4] {
    let s = tag_size_m / 2.0;
    [
        Vec3F64::new(s, -s, 0.0),
        Vec3F64::new(s, s, 0.0),
        Vec3F64::new(-s, s, 0.0),
        Vec3F64::new(-s, -s, 0.0),
    ]
}

fn observe(anchor: &mut AprilTagAnchor, kf_idx: usize, shift: f64) {
    let corners_map = canonical_corners(0.2).map(|p| p + Vec3F64::new(shift, 0.0, 0.0));
    anchor.push_observation(TagObservation { kf_idx, corners_map });
}

fn solve(anchor: &AprilTagAnchor, limit: f64) -> Result<(usize, f64), AprilTagAnchorError> {
    let canonical = canonical_corners(0.2);
    anchor.solve(
        &canonical,
        |obs: TagObservation| (obs.corners_map[0] - canonical[0]).length() <= limit,
        |observed: &Vec<Vec3F64>, expected: &Vec<Vec3F64>| {
            assert_eq!(observed.len(), expected.len());
            let shift: f64 = observed.iter().zip(expected).map(|(a, b)| (*a - *b).length()).sum();
            (observed.len(), shift)
        },
    )
}

#[test]
fn solve_rejects_single_keyframe() {
    let mut anchor = AprilTagAnchor::new(config(0, 0));
    observe(&mut anchor, 0, 0.0);

    let err = match solve(&anchor, 1.0) {
        Err(err) => err,
        Ok(_) => panic!("expected solve to fail with a single keyframe"),
    };
    assert_eq!(
        err,
        AprilTagAnchorError::InsufficientObservations { keyframes: 1 }
    );
}

#[test]
fn solve_leaves_out_inconsistent_observations() {
    let mut anchor = AprilTagAnchor::new(config(0, 0));
    assert_eq!(
        solve(&anchor, 1.0),
        Err(AprilTagAnchorError::InsufficientObservations { keyframes: 0 })
    );
    observe(&mut anchor, 0, 0.0);
    observe(&mut anchor, 0, 0.0);
    observe(&mut anchor, 4, 9.0);
    assert_eq!(anchor.num_observations(), 3);
    assert_eq!(anchor.num_distinct_keyframes(), 2);
    assert_eq!(
        solve(&anchor, 1.0),
        Err(AprilTagAnchorError::InsufficientObservations { keyframes: 1 })
    );
    observe(&mut anchor, 7, 0.5);
    assert_eq!(solve(&anchor, 1.0), Ok((12, 2.0)));
}

fn config(tag_id: u16, max_hamming: u8) -> AprilTagAnchorConfig {
    AprilTagAnchorConfig {
        tag_id,
        max_hamming,
        ..AprilTagAnchorConfig::new(Vec2F64::new(0.2, 0.2), TagFamilyKind::Tag36H11)
    }
}

#[test]
fn the_best_acceptable_detection_is_kept() {
    let tag = |id: u16, hamming: u8, margin: f32| TagDetection {
        id,
        hamming,
        margin_bits: margin.to_bits(),
    };
    let detections = [
        tag(2, 0, 90.0),
        tag(3, 2, 80.0),
        tag(3, 0, 29.5),
        tag(3, 1, 50.0),
        tag(3, 0, 60.0),
        tag(3, 0, 60.0),
        tag(3, 0, 30.0),
        tag(3, 0, f32::NAN),
        tag(3, 0, -70.0),
    ];
    assert_eq!(find_best_detection(&config(3, 1), &detections), Some(5));
    assert_eq!(find_best_detection(&config(3, 1), &detections[..3]), None);
    assert_eq!(find_best_detection(&config(3, 1), &detections[6..]), Some(0));
    let lenient = AprilTagAnchorConfig {
        min_margin_bits: (-100.0f32).to_bits(),
        ..config(3, 0)
    };
    let low = [tag(3, 0, -70.0), tag(3, 0, -50.0), tag(3, 0, -60.0)];
    assert_eq!(find_best_detection(&lenient, &low), Some(1));
    let zeros = AprilTagAnchorConfig {
        min_margin_bits: 0.0f32.to_bits(),
        ..config(3, 0)
    };
    assert_eq!(find_best_detection(&zeros, &[tag(3, 0, 0.0), tag(3, 0, -0.0)]), Some(0));
}

#[test]
fn observations_are_in_the_map_frame() {
    let mut anchor = AprilTagAnchor::new(config(3, 1));
    assert_eq!(anchor.config().tag_id, 3);
    let camera = Pose3d::new(Mat3F64::IDENTITY, Vec3F64::new(0.0, 0.0, 1.0));
    let tag_pose = Pose3d::new(Mat3F64::IDENTITY, Vec3F64::new(0.0, 0.0, 4.0));
    anchor.record(5, &camera, &canonical_corners(0.2), None);
    assert_eq!(anchor.num_observations(), 0);
    anchor.record(5, &camera, &canonical_corners(0.2), Some(tag_pose));
    assert_eq!(anchor.num_observations(), 1);
    let observation = anchor.observations()[0];
    assert_eq!(observation.kf_idx, 5);
    assert_eq!(observation.corners_map[0], Vec3F64::new(0.1, -0.1, 3.0));
    assert_eq!(observation.corners_map[2], Vec3F64::new(-0.1, 0.1, 3.0));
}

/// A fronto-parallel tag with the given id: a cell is `cell` pixels wide, and the black
/// border starts at (`left`, `top`).
fn tag_image(id: usize, left: usize, top: usize, cell: usize) -> Vec<u8> {
    let family = TagFamily::tag36_h11().unwrap();
    let mut pixels = vec![255u8; 320 * 240];
    let mut fill = |x: usize, y: usize, value: u8| {
        for v in 0..cell {
            for u in 0..cell {
                pixels[(top + y * cell + v) * 320 + left + x * cell + u] = value;
            }
        }
    };
    for y in 0..family.width_at_border {
        for x in 0..family.width_at_border {
            fill(x, y, 0);
        }
    }
    for i in 0..family.nbits {
        let bit = (family.code_data[id] >> (family.nbits - 1 - i)) & 1;
        fill(family.bit_x[i] as usize, family.bit_y[i] as usize, if bit == 1 { 255 } else { 0 });
    }
    pixels
}

#[test]
fn a_tag_is_found_in_the_image() {
    let camera = PinholeCamera {
        fx: 400.0,
        fy: 400.0,
        cx: 160.0,
        cy: 120.0,
        k1: 0.0,
        k2: 0.0,
        p1: 0.0,
        p2: 0.0,
    };
    let pixels = tag_image(5, 120, 80, 10);
    let image = GrayImage {
        width: 320,
        height: 240,
        pixels: &pixels,
    };
    let corners = canonical_corners(0.2);
    let mut anchor = AprilTagAnchor::new(config(5, 0));
    anchor.on_keyframe(0, &image, &Pose3d::IDENTITY, &camera, &corners);
    assert_eq!(anchor.num_observations(), 1);
    // Eighty pixels for 0.2 m at a focal length of 400 pixels: one metre away.
    for (corner, expected) in anchor.observations()[0].corners_map.iter().zip(&corners) {
        let expected = *expected + Vec3F64::new(0.0, 0.0, 1.0);
        assert!((*corner - expected).length() < 0.05, "{corner:?} is not {expected:?}");
    }
    let mut other = AprilTagAnchor::new(config(6, 0));
    other.on_keyframe(0, &image, &Pose3d::IDENTITY, &camera, &corners);
    assert_eq!(other.num_observations(), 0);
    // A tag of one family is none of another.
    let small = AprilTagAnchorConfig {
        family: TagFamilyKind::Tag25H9,
        ..config(5, 0)
    };
    let mut other = AprilTagAnchor::new(small);
    other.on_keyframe(0, &image, &Pose3d::IDENTITY, &camera, &corners);
    other.ingest(1, &Pose3d::IDENTITY, &camera, &corners, &None);
    assert_eq!(other.num_observations(), 0);
    let nothing = GrayImage {
        width: 0,
        height: 0,
        pixels: &[],
    };
    anchor.on_keyframe(1, &nothing, &Pose3d::IDENTITY, &camera, &corners);
    assert_eq!(anchor.num_observations(), 1);
    anchor.on_keyframe(2, &image, &Pose3d::IDENTITY, &camera, &corners);
    assert_eq!(anchor.num_distinct_keyframes(), 2);
}
