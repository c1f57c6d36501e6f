use kornia_3d::camera::PinholeCamera;
use kornia_3d::pose::{Pose3d, TriangulationConfig};
use kornia_algebra::{Mat3F64, Vec2F64, Vec3F64};
use kornia_image::ImageSize;
use kornia_imgproc::features::{OrbFeatures, OrbMatchConfig};
use kornia_slam::descriptor::{are_matchable, match_orb_descriptors};
use kornia_slam::estimation::two_view::{
    find_median_depth, judge_two_view, solve_two_view, try_initialize_two_view,
    TwoViewAcceptanceConfig, TwoViewInitConfig, TwoViewRejectReason, TwoViewSolution,
};
use kornia_slam::frame::Frame;
use kornia_slam::mapping::growth::Sight;
use kornia_slam::mapping::{grow_map_points_from_keyframe_pair, Keyframe, SlamMap};
use kornia_slam::odometry::bootstrap::{
    judge_bootstrap, try_bootstrap, BootstrapConfig, BootstrapOutcome, BootstrapRejectReason,
};

fn camera() -> PinholeCamera {
    PinholeCamera {
        fx: 500.0,
        fy: 500.0,
        cx: 320.0,
        cy: 240.0,
        k1: 0.0,
        k2: 0.0,
        p1: 0.0,
        p2: 0.0,
    }
}

/// Points of which a third is on a plane and the others are spread in depth.
fn scene(n: usize) -> Vec<Vec3F64> {
    let mut seed: u32 = 12345;
    let mut next = || {
        seed = seed.wrapping_mul(1_664_525).wrapping_add(1_013_904_223);
        (seed >> 8) as f64 / (1u32 << 24) as f64
    };
    (0..n)
        .map(|i| {
            let (x, y, z) = (next(), next(), next());
            let depth = if i % 3 == 0 { 6.0 } else { 4.0 + z * 6.0 };
            Vec3F64::new(x * 4.0 - 2.0, y * 3.0 - 1.5, depth)
        })
        .collect()
}

fn second_pose() -> Pose3d {
    let a: f64 = 0.03;
    let rotation = Mat3F64::from_cols(
        Vec3F64::new(a.cos(), 0.0, -a.sin()),
        Vec3F64::new(0.0, 1.0, 0.0),
        Vec3F64::new(a.sin(), 0.0, a.cos()),
    );
    Pose3d::new(rotation, Vec3F64::new(-0.8, 0.1, 0.05))
}

fn view(points: &[Vec3F64], pose: &Pose3d) -> OrbFeatures {
    let c = camera();
    let keypoints_xy: Vec<[f32; 2]> = points
        .iter()
        .map(|p| {
            let q = pose.transform_point(p);
            [
                (c.fx * q.x / q.z + c.cx) as f32,
                (c.fy * q.y / q.z + c.cy) as f32,
            ]
        })
        .collect();
    let n = keypoints_xy.len();
    OrbFeatures {
        keypoints_xy,
        orientations: vec![0.0; n],
        descriptors: (0..n).map(|i| [i as u8; 32]).collect(),
        octaves: vec![0; n],
    }
}

fn identity_matches(n: usize) -> Vec<(usize, usize)> {
    (0..n).map(|i| (i, i)).collect()
}

fn solution(points: usize, inliers: usize, is_fundamental: bool) -> TwoViewSolution {
    TwoViewSolution {
        is_fundamental,
        motion: Pose3d::new(Mat3F64::IDENTITY, Vec3F64::new(4.0, 0.0, 0.0)),
        points3d: vec![Vec3F64::new(0.0, 0.0, 2.0); points],
        inlier_indices: (0..inliers).collect(),
        parallax: 2.0f64.to_bits(),
    }
}

#[test]
fn gates_are_judged_in_order() {
    let acceptance = TwoViewAcceptanceConfig::default();
    let judge = |n: usize, found: Option<TwoViewSolution>, min_parallax: f64| {
        let shifted = Pose3d::new(Mat3F64::IDENTITY, Vec3F64::new(1.0, 2.0, 3.0));
        judge_two_view(
            identity_matches(n),
            &shifted,
            &acceptance,
            min_parallax.to_bits(),
            found,
        )
        .map(|e| (e.estimate.inliers, e.estimate.pose.translation, e.median_depth.map(|p| p.z)))
    };
    assert_eq!(judge(99, Some(solution(50, 30, true)), 1.0), Err(TwoViewRejectReason::LowMatches));
    assert_eq!(judge(100, None, 1.0), Err(TwoViewRejectReason::EstimationFailed));
    assert_eq!(judge(100, Some(solution(0, 0, false)), 9.0), Err(TwoViewRejectReason::WrongModel));
    assert_eq!(
        judge(100, Some(solution(49, 0, true)), 9.0),
        Err(TwoViewRejectReason::LowTriangulated)
    );
    assert_eq!(judge(100, Some(solution(50, 29, true)), 9.0), Err(TwoViewRejectReason::LowInliers));
    assert_eq!(judge(100, Some(solution(50, 30, true)), 2.5), Err(TwoViewRejectReason::LowParallax));
    // At a median depth of two, the motion is half as long.
    let expected = Ok((30, Vec3F64::new(3.0, 2.0, 3.0), Some(2.0)));
    assert_eq!(judge(100, Some(solution(50, 30, true)), 2.0), expected);
    assert_eq!(judge(100, Some(solution(50, 30, true)), f64::NAN), expected);
}

#[test]
fn the_median_is_that_of_positive_depths() {
    let points = |depths: &[f64]| -> Vec<Vec3F64> {
        depths.iter().map(|z| Vec3F64::new(7.0, 8.0, *z)).collect()
    };
    let median = |depths: &[f64]| find_median_depth(&points(depths)).map(|p| p.z);
    assert_eq!(median(&[]), None);
    assert_eq!(median(&[-1.0, 0.0, -0.0, f64::NAN]), None);
    assert_eq!(median(&[3.0, -5.0, 1.0, 2.0]), Some(2.0));
    assert_eq!(median(&[3.0, 1.0, 4.0, 2.0]), Some(3.0));
    assert_eq!(median(&[3.0, f64::NAN, 0.5]), Some(3.0));
    assert_eq!(median(&[1e-6, 1e-6, 9.0]), None);
    assert_eq!(median(&[1e-7, 2e-6, 9.0]), Some(2e-6));
}

#[test]
fn bootstrap_adds_the_motion_from_the_last_pose() {
    let config = BootstrapConfig::default();
    let last = Pose3d::new(Mat3F64::IDENTITY, Vec3F64::new(0.0, 0.0, 5.0));
    let judge = |n: usize, found: Option<TwoViewSolution>| {
        judge_bootstrap(identity_matches(n), &Pose3d::IDENTITY, &last, &config, found)
    };
    match judge(100, Some(solution(50, 30, true))) {
        BootstrapOutcome::Initialized {
            pose_world_to_cam,
            motion_increment,
            matches,
            points3d,
            inlier_indices,
            median_depth,
        } => {
            assert_eq!(pose_world_to_cam.translation, Vec3F64::new(2.0, 0.0, 0.0));
            assert_eq!(motion_increment.translation, Vec3F64::new(2.0, 0.0, -5.0));
            assert_eq!((matches.len(), points3d.len(), inlier_indices.len()), (100, 50, 30));
            assert_eq!(median_depth, Some(Vec3F64::new(0.0, 0.0, 2.0)));
        }
        BootstrapOutcome::Rejected { reason } => panic!("rejected: {reason:?}"),
    }
    let reason = |outcome: BootstrapOutcome| match outcome {
        BootstrapOutcome::Rejected { reason } => reason,
        BootstrapOutcome::Initialized { .. } => panic!("expected a rejection"),
    };
    assert_eq!(reason(judge(5, None)), BootstrapRejectReason::LowMatches);
    assert_eq!(reason(judge(100, None)), BootstrapRejectReason::EstimationFailed);
    assert_eq!(
        reason(judge(100, Some(solution(50, 30, false)))),
        BootstrapRejectReason::WrongModel
    );
    assert_eq!(
        reason(judge(100, Some(solution(5, 30, true)))),
        BootstrapRejectReason::LowTriangulated
    );
    assert_eq!(
        reason(judge(100, Some(solution(50, 3, true)))),
        BootstrapRejectReason::LowInliers
    );
    let flat = TwoViewSolution {
        parallax: 0.9f64.to_bits(),
        ..solution(50, 30, true)
    };
    assert_eq!(reason(judge(100, Some(flat))), BootstrapRejectReason::LowParallax);
}

#[test]
fn default_two_view_thresholds() {
    let config = TwoViewInitConfig::default();
    assert_eq!(config.match_config.nn_ratio, 0.6);
    assert_eq!(config.match_config.th_low, 50);
    assert!(config.match_config.check_orientation);
    assert_eq!(config.match_config.histo_length, 30);
    assert_eq!(config.triangulation_config.min_parallax_deg, 1.0);
    assert_eq!(config.triangulation_config.max_reprojection_error, 2.0);
    assert_eq!(config.acceptance_config, TwoViewAcceptanceConfig::default());
    let bootstrap = BootstrapConfig::default();
    assert_eq!(bootstrap.match_config.th_low, 50);
    assert_eq!(bootstrap.triangulation_config.min_parallax_deg, 1.0);
    assert_eq!(f64::from_bits(bootstrap.min_parallax), 1.0);
}

fn first_of(features: &OrbFeatures, n: usize) -> OrbFeatures {
    let mut first = features.clone();
    first.keypoints_xy.truncate(n);
    first.orientations.truncate(n);
    first.descriptors.truncate(n);
    first.octaves.truncate(n);
    first
}

#[test]
fn descriptors_are_matched_where_they_can_be() {
    let points = scene(25);
    let mut first = view(&points, &Pose3d::IDENTITY);
    let second = view(&points, &second_pose());
    let config = OrbMatchConfig::default();
    assert_eq!(
        match_orb_descriptors(&first, &second, &config).unwrap(),
        identity_matches(25)
    );
    assert!(are_matchable(&first, &second, &config));
    let few_bins = OrbMatchConfig { histo_length: 10, ..config };
    assert!(match_orb_descriptors(&first, &second, &few_bins).is_none());
    let nothing = first_of(&first, 0);
    assert_eq!(match_orb_descriptors(&nothing, &second, &few_bins), Some(vec![]));
    let too_many = OrbMatchConfig { histo_length: usize::MAX, ..config };
    assert!(!are_matchable(&first, &second, &too_many));
    let unchecked = OrbMatchConfig { check_orientation: false, ..few_bins };
    assert!(match_orb_descriptors(&first, &second, &unchecked).is_some());
    first.orientations[3] = -7.0;
    assert!(!are_matchable(&first, &second, &config));
    assert!(are_matchable(&first, &second, &unchecked));
    first.orientations[3] = f32::NAN;
    assert!(!are_matchable(&first, &second, &config));
    first.orientations[3] = -6.2;
    assert!(are_matchable(&first, &second, &config));
    // Fewer bins do for angles of at most half a turn.
    let bins = |n: usize| OrbMatchConfig { histo_length: n, ..config };
    assert!(are_matchable(&first, &second, &bins(27)));
    assert!(!are_matchable(&first, &second, &bins(26)));
    first.orientations[3] = -std::f32::consts::PI;
    assert!(match_orb_descriptors(&first, &second, &bins(19)).is_some());
    assert!(!are_matchable(&first, &second, &bins(18)));
    first.orientations.pop();
    assert!(!are_matchable(&first, &second, &unchecked));
}

#[test]
fn two_view_estimation_recovers_the_motion() {
    let points = scene(160);
    let first = view(&points, &Pose3d::IDENTITY);
    let second = view(&points, &second_pose());
    let config = TwoViewInitConfig::default();
    let estimate = try_initialize_two_view(
        &first,
        &Pose3d::IDENTITY,
        &second,
        &camera(),
        &config,
    )
    .expect("clean matches should initialize");
    assert!(estimate.estimate.inliers >= 100);
    assert_eq!(estimate.estimate.inliers, estimate.inlier_indices.len());
    let expected = second_pose().translation.normalize();
    let direction = estimate.estimate.pose.translation.normalize();
    assert!(direction.dot(expected) > 0.99, "direction {direction:?}");
    let depth = estimate.median_depth.expect("the points are in front of the camera").z;
    let length = estimate.estimate.pose.translation.length();
    assert!((length * depth - 1.0).abs() < 1e-9, "{length} at depth {depth}");

    let few = try_initialize_two_view(
        &first_of(&first, 50),
        &Pose3d::IDENTITY,
        &first_of(&second, 50),
        &camera(),
        &config,
    );
    assert_eq!(few.err(), Some(TwoViewRejectReason::LowMatches));

    let outcome = try_bootstrap(
        &first,
        &Pose3d::IDENTITY,
        &second,
        &Pose3d::IDENTITY,
        &camera(),
        &BootstrapConfig::default(),
    );
    assert!(matches!(outcome, BootstrapOutcome::Initialized { .. }));
}

#[test]
fn a_fixated_scene_has_little_parallax() {
    // The second camera turns towards the middle of the scene: pixels hardly move, though
    // the rays to every point meet at several degrees.
    let points = scene(160);
    let direction = Vec3F64::new(-0.8, 0.0, 6.0).normalize();
    let rotation = Mat3F64::from_cols(
        Vec3F64::new(direction.z, 0.0, direction.x),
        Vec3F64::new(0.0, 1.0, 0.0),
        Vec3F64::new(-direction.x, 0.0, direction.z),
    );
    let pose = Pose3d::new(rotation, -(rotation * Vec3F64::new(0.8, 0.0, 0.0)));
    let config = TwoViewInitConfig {
        match_config: OrbMatchConfig::default(),
        triangulation_config: TriangulationConfig {
            min_parallax_deg: 4.0,
            ..TriangulationConfig::default()
        },
        acceptance_config: TwoViewAcceptanceConfig::default(),
    };
    let result = try_initialize_two_view(
        &view(&points, &Pose3d::IDENTITY),
        &Pose3d::IDENTITY,
        &view(&points, &pose),
        &camera(),
        &config,
    );
    assert_eq!(result.err(), Some(TwoViewRejectReason::LowParallax));
}

#[test]
fn growth_estimates_its_own_inliers() {
    let points = scene(120);
    let first = view(&points, &Pose3d::IDENTITY);
    let second = view(&points, &second_pose());
    let size = ImageSize {
        width: 640,
        height: 480,
    };
    let prev_kf = Keyframe::from_frame(Frame::new(0, first, Pose3d::IDENTITY, size));
    let grow = |n: usize, pose: Pose3d| {
        let mut map = SlamMap::new();
        let mut slots: Vec<Option<usize>> = vec![None; 120];
        let added = grow_map_points_from_keyframe_pair(
            &mut map,
            &camera(),
            1,
            &prev_kf,
            &first_of(&second, n),
            &mut slots,
            &pose,
            &OrbMatchConfig::default(),
            &TriangulationConfig::default(),
            &Sight {
                ray: |p: &Vec2F64| {
                    Vec3F64::new((p.x - 320.0) / 500.0, (p.y - 240.0) / 500.0, 1.0).normalize()
                },
                parallax: |_: &Pose3d, _: &Vec3F64| Some(5.0f64.to_bits()),
                min_parallax: 1.0f64.to_bits(),
            },
        );
        assert_eq!(added, map.map_points().len());
        assert_eq!(added, slots.iter().flatten().count());
        for (c, slot) in slots.iter().enumerate() {
            if let Some(i) = slot {
                assert!((map.map_points()[*i].position - points[c]).length() < 1e-3);
                assert_eq!(map.map_points()[*i].descriptor, [c as u8; 32]);
            }
        }
        added
    };
    assert!(grow(120, second_pose()) >= 80);
    assert_eq!(grow(19, second_pose()), 0);
    // From the same place there is nothing to triangulate.
    assert_eq!(grow(120, Pose3d::IDENTITY), 0);
}

#[test]
fn too_few_points_give_no_geometry() {
    let points = scene(3);
    let first = view(&points, &Pose3d::IDENTITY);
    let second = view(&points, &second_pose());
    let found = solve_two_view(
        &camera(),
        &TriangulationConfig::default(),
        &first,
        &second,
        &identity_matches(3),
    );
    assert!(found.is_none());
}
