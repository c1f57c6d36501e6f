use kornia_3d::camera::PinholeCamera;
use kornia_3d::pose::Pose3d;
use kornia_algebra::{Mat3F64, Vec2F32, Vec3F64};
use kornia_image::ImageSize;
use kornia_imgproc::features::OrbFeatures;
use kornia_slam::estimation::map_projection::{
    MapProjectionConfig, MapProjectionEstimator, MapProjectionRejectReason,
};
use kornia_slam::estimation::pnp::{
    count_reprojection_inliers, score_refined, solve_pnp, PnpConfig, PnpLimits,
};
use kornia_slam::estimation::Estimate;
use kornia_slam::frame::{undistort_keypoints, Frame};
use kornia_slam::mapping::{Keyframe, MapPoint, SlamMap};
use kornia_slam::odometry::estimation::map_projection::{
    EstimationRejectReason, MapProjectionEstimator as OdometryEstimator, OdometryConfig,
};
use kornia_slam::odometry::estimation::flow::reference_correspondences;
use kornia_slam::odometry::estimation::matching::{CellWindow, GridShape, Searcher};
use kornia_slam::odometry::estimation::pnp::{
    pose_increment_ok, solve_pnp_from_correspondences, PnpConfig as OdometryPnpConfig,
};
use kornia_slam::odometry::Estimator;
use kornia_slam::system::KeyframePolicy;

fn camera() -> PinholeCamera {
    PinholeCamera {
        fx: 500.0,
        fy: 500.0,
        cx: 320.0,
        cy: 240.0,
        k1: 0.0,
        k2: 0.0,
        p1: 0.0,
        p2: 0.0,
    }
}

fn weak(n_ref: usize) -> usize {
    (n_ref as f64 * 0.6) as usize
}

#[test]
fn map_projection_test_need_new_keyframe_forced_by_gap() {
    let policy = KeyframePolicy::default();
    assert!(policy.should_insert(100, Some(90), 50, 100, weak));
    let tracker = OdometryEstimator::new(camera(), OdometryConfig::default());
    assert!(tracker.need_new_keyframe(100, Some(90), 50, 100, weak));
}

#[test]
fn map_projection_test_need_new_keyframe_too_soon() {
    let policy = KeyframePolicy::default();
    assert!(!policy.should_insert(2, Some(1), 50, 100, weak));
    let tracker = OdometryEstimator::new(camera(), OdometryConfig::default());
    assert!(!tracker.need_new_keyframe(2, Some(1), 50, 100, weak));
}

#[test]
fn keyframe_decision_between_the_gaps() {
    let policy = KeyframePolicy::default();
    assert!(policy.should_insert(0, None, 0, 0, weak));
    assert!(policy.should_insert(5, Some(0), 0, 0, weak));
    assert!(policy.should_insert(5, Some(0), 59, 100, weak));
    assert!(!policy.should_insert(5, Some(0), 60, 100, weak));
    assert!(!policy.should_insert(5, Some(0), 14, 100, weak));
    assert!(policy.should_insert(5, Some(0), 15, 100, weak));
    assert!(policy.should_insert(8, Some(0), 100, 100, weak));
    assert!(!policy.should_insert(0, Some(5), 20, 100, weak));
}

fn size() -> ImageSize {
    ImageSize {
        width: 640,
        height: 480,
    }
}

fn features(n: usize) -> OrbFeatures {
    features_at(&vec![Vec2F32::new(0.0, 0.0); n])
}

fn features_at(keypoints: &[Vec2F32]) -> OrbFeatures {
    let n = keypoints.len();
    OrbFeatures {
        keypoints_xy: keypoints.iter().map(|p| p.to_array()).collect(),
        orientations: vec![0.0; n],
        descriptors: (0..n).map(|i| [i as u8; 32]).collect(),
        octaves: vec![0; n],
    }
}

fn world_points(n: usize) -> Vec<Vec3F64> {
    (0..n)
        .map(|i| Vec3F64::new((i % 8) as f64 * 0.3 - 1.0, (i / 8) as f64 * 0.3 - 0.8, 5.0))
        .collect()
}

fn map_of(points: &[Vec3F64]) -> SlamMap {
    let mut map = SlamMap::new();
    for (i, p) in points.iter().enumerate() {
        map.push_map_point(MapPoint {
            position: *p,
            descriptor: [i as u8; 32],
            keyframe_idx: 0,
            n_visible: 1,
            n_found: 1,
            culled: false,
        });
    }
    map
}

fn see(pose: &Pose3d, point: &Vec3F64) -> Vec2F32 {
    let c = camera();
    let p = pose.transform_point(point);
    Vec2F32::new(
        (c.fx * p.x / p.z + c.cx) as f32,
        (c.fy * p.y / p.z + c.cy) as f32,
    )
}

const ONE_CELL: GridShape = GridShape {
    n_cols: 1,
    n_rows: 1,
};

fn whole() -> CellWindow {
    CellWindow {
        col_min: 0,
        col_max: 0,
        row_min: 0,
        row_max: 0,
    }
}

/// Runs the estimator on a frame with the given keypoints.
fn run(
    map: &SlamMap,
    keypoints: &[Vec2F32],
    reach: f32,
    current: Option<usize>,
) -> Result<Estimate, MapProjectionRejectReason> {
    let frame = Frame::new(9, features_at(keypoints), Pose3d::IDENTITY, size());
    let searcher = Searcher {
        cell: |_: &Vec2F32| (0, 0),
        window: |_: &Vec2F32, _: &Vec2F32| whole(),
    };
    let mut config = MapProjectionConfig::default();
    config.projection.search_radius = Vec2F32::new(reach, 0.0);
    config.local_projection.search_radius = Vec2F32::new(reach, 0.0);
    MapProjectionEstimator::new(camera(), config).estimate_pose(
        &frame,
        ONE_CELL,
        &Pose3d::IDENTITY,
        &Pose3d::IDENTITY,
        map,
        current,
        &searcher,
    )
}

fn shifted() -> Pose3d {
    Pose3d::new(Mat3F64::IDENTITY, Vec3F64::new(0.05, 0.0, 0.0))
}

fn is_near(pose: &Pose3d, other: &Pose3d) -> bool {
    (pose.translation - other.translation).length() < 0.02
}

fn rejected(result: Result<Estimate, MapProjectionRejectReason>) -> MapProjectionRejectReason {
    match result {
        Ok(_) => panic!("expected no estimate"),
        Err(reason) => reason,
    }
}

#[test]
fn estimate_pose_from_projection() {
    let points = world_points(40);
    let map = map_of(&points);
    let keypoints: Vec<Vec2F32> = points.iter().map(|p| see(&shifted(), p)).collect();
    let estimate = run(&map, &keypoints, 15.0, None).unwrap();
    assert_eq!(estimate.inliers, 40);
    assert_eq!(estimate.matches.len(), 40);
    assert_eq!(estimate.matches[7], (7, 7));
    assert!(is_near(&estimate.pose, &shifted()));
}

#[test]
fn estimate_pose_names_the_reason() {
    let points = world_points(40);
    let map = map_of(&points);
    let keypoints: Vec<Vec2F32> = points.iter().map(|p| see(&shifted(), p)).collect();
    assert_eq!(
        rejected(run(&map, &keypoints, f32::NAN, None)),
        MapProjectionRejectReason::LowProjectionMatches
    );
    // Found, but too far from where the predicted pose sees them.
    let displaced: Vec<Vec2F32> = points
        .iter()
        .map(|p| see(&shifted(), p) + Vec2F32::new(60.0, 0.0))
        .collect();
    assert_eq!(
        rejected(run(&map, &displaced, 100.0, None)),
        MapProjectionRejectReason::PnpFailed
    );
    // Scattered so that no pose fits more than a few.
    let scattered: Vec<Vec2F32> = points
        .iter()
        .enumerate()
        .map(|(i, p)| {
            let (a, b) = ((i * 7 % 5) as f32 - 2.0, (i * 3 % 7) as f32 - 3.0);
            see(&Pose3d::IDENTITY, p) + Vec2F32::new(7.0 * a, 5.0 * b)
        })
        .collect();
    assert_eq!(
        rejected(run(&map, &scattered, 100.0, None)),
        MapProjectionRejectReason::LowPnpInliers
    );
}

#[test]
fn estimate_pose_falls_back_to_the_reference_keyframe() {
    let points = world_points(40);
    let with_reference = |n: usize, slots: usize| {
        let mut map = map_of(&points);
        let mut kf = Keyframe::from_frame(Frame::new(3, features(n), Pose3d::IDENTITY, size()));
        for i in 0..slots {
            kf.map_point_by_desc_idx[i] = Some(i);
        }
        map.upsert_keyframe(kf);
        map
    };
    let keypoints: Vec<Vec2F32> = points.iter().map(|p| see(&shifted(), p)).collect();
    assert_eq!(
        rejected(run(&with_reference(14, 14), &keypoints, f32::NAN, Some(3))),
        MapProjectionRejectReason::LowReferenceMatches
    );
    assert_eq!(
        rejected(run(&with_reference(15, 3), &keypoints, f32::NAN, Some(3))),
        MapProjectionRejectReason::LowReferenceCorrespondences
    );
    let estimate = run(&with_reference(40, 30), &keypoints, f32::NAN, Some(3)).unwrap();
    assert_eq!(estimate.inliers, 30);
    assert_eq!(estimate.matches.len(), 30);
    assert!(is_near(&estimate.pose, &shifted()));
    assert_eq!(
        rejected(run(&with_reference(40, 30), &keypoints, f32::NAN, Some(4))),
        MapProjectionRejectReason::LowProjectionMatches
    );
}

#[test]
fn correspondences_go_through_the_keyframe() {
    let slots = vec![Some(4), None, Some(9), Some(2)];
    let matches = vec![(3, 10), (1, 11), (0, 12), (7, 13), (2, 14), (0, 15)];
    assert_eq!(
        reference_correspondences(&slots, 9, &matches),
        vec![(2, 10), (4, 12), (4, 15)]
    );
}

#[test]
fn keypoints_are_undistorted() {
    let keypoints = [Vec2F32::new(320.0, 240.0), Vec2F32::new(400.0, 100.0)];
    let features = features_at(&keypoints);
    assert_eq!(undistort_keypoints(&camera(), &features), keypoints.to_vec());
    let lens = PinholeCamera { k1: -0.2, ..camera() };
    let pixels = undistort_keypoints(&lens, &features);
    let expected = lens.undistort(400.0, 100.0);
    assert_eq!(pixels[0], keypoints[0]);
    assert_eq!(pixels[1], Vec2F32::new(expected.x as f32, expected.y as f32));
    assert_ne!(pixels[1], keypoints[1]);
}

#[test]
fn odometry_rejects_implausible_motion_and_keeps_its_last_matches() {
    let points = world_points(40);
    let map = map_of(&points);
    let keypoints: Vec<Vec2F32> = points.iter().map(|p| see(&shifted(), p)).collect();
    let frame = Frame::new(9, features_at(&keypoints), Pose3d::IDENTITY, size());
    let searcher = Searcher {
        cell: |_: &Vec2F32| (0, 0),
        window: |_: &Vec2F32, _: &Vec2F32| whole(),
    };
    let mut tracker = OdometryEstimator::new(camera(), OdometryConfig::default());
    let mut track = |turn: f64| {
        let result = tracker.track(
            &frame,
            ONE_CELL,
            &Pose3d::IDENTITY,
            &Pose3d::IDENTITY,
            &map,
            None,
            &searcher,
            &|_: &Pose3d, _: &Pose3d| turn.to_bits(),
        );
        let near = result.map(|pose| is_near(&pose, &shifted()));
        (near, tracker.last_inliers(), tracker.last_matches().len())
    };
    assert_eq!(track(20.1), (Err(EstimationRejectReason::PnpInconsistentMotion), 0, 0));
    assert_eq!(track(20.0), (Ok(true), 40, 40));
    assert_eq!(track(f64::NAN), (Err(EstimationRejectReason::PnpInconsistentMotion), 40, 40));
    assert!(tracker.estimate(&frame, &Pose3d::IDENTITY).is_none());
    assert_eq!(tracker.last_inliers(), 40);
}

#[test]
fn increments_are_plausible_within_both_limits() {
    let config = OdometryPnpConfig::default();
    let ok = |turn: f64, x: f64| {
        let from = Pose3d::new(Mat3F64::IDENTITY, Vec3F64::new(1.0, 0.0, 0.0));
        let to = Pose3d::new(Mat3F64::IDENTITY, Vec3F64::new(1.0 + x, 0.0, 0.0));
        pose_increment_ok(&from, &to, &config, &|_: &Pose3d, _: &Pose3d| turn.to_bits())
    };
    assert!(ok(20.0, 0.5));
    assert!(!ok(20.1, 0.5));
    assert!(!ok(20.0, 0.51));
    assert!(!ok(20.0, -0.51));
    assert!(!ok(0.0, f64::NAN));
}

#[test]
fn observations_are_counted_for_points_in_the_image() {
    let mut map = map_of(&world_points(4));
    map.map_points_mut()[1].culled = true;
    map.map_points_mut()[3].n_visible = u32::MAX;
    let tracker = OdometryEstimator::new(camera(), OdometryConfig::default());
    tracker.update_map_point_observations(
        &mut map,
        &[(0, 5), (1, 6), (2, 7)],
        &Pose3d::IDENTITY,
        |_: &Pose3d, point: &Vec3F64| point.x < -0.3,
    );
    let counts: Vec<(u32, u32)> = map
        .map_points()
        .iter()
        .map(|mp| (mp.n_visible, mp.n_found))
        .collect();
    assert_eq!(counts, vec![(2, 2), (1, 1), (2, 2), (u32::MAX, 1)]);
}

#[test]
fn visible_points_are_in_front_and_in_the_image() {
    let mut map = map_of(&[
        Vec3F64::new(0.0, 0.0, 5.0),
        Vec3F64::new(0.0, 0.0, -5.0),
        Vec3F64::new(100.0, 0.0, 5.0),
        Vec3F64::new(0.1, 0.0, 5.0),
    ]);
    map.map_points_mut()[3].culled = true;
    let estimator = MapProjectionEstimator::new(camera(), MapProjectionConfig::default());
    let mut visible: Vec<usize> = estimator
        .visible_map_points(&map, &Pose3d::IDENTITY, size())
        .into_iter()
        .collect();
    visible.sort();
    assert_eq!(visible, vec![0]);
    // From a pose that looks at it from behind the other way round, nothing is visible.
    let away = Pose3d::new(Mat3F64::IDENTITY, Vec3F64::new(0.0, 0.0, -10.0));
    assert!(estimator.visible_map_points(&map, &away, size()).is_empty());
}

fn limits(prior_px: f64, final_px: f64) -> PnpLimits {
    PnpLimits {
        prior_error: (prior_px * prior_px).to_bits(),
        final_error: (final_px * final_px).to_bits(),
    }
}

#[test]
fn pnp_leaves_out_what_does_not_exist_and_needs_enough() {
    let points: Vec<Vec3F64> = world_points(40).into_iter().step_by(5).collect();
    let map = map_of(&points);
    // The last two pixels are far off.
    let keypoints: Vec<Vec2F32> = points
        .iter()
        .enumerate()
        .map(|(i, p)| see(&shifted(), p) + Vec2F32::new(if i < 6 { 0.0 } else { 50.0 }, 0.0))
        .collect();
    let pairs: Vec<(usize, usize)> = (0..10).map(|i| (i, i)).chain([(0, 99)]).collect();
    let solve = |min: usize, limits: PnpLimits| {
        solve_pnp_from_correspondences(
            &camera(),
            map.map_points(),
            &pairs,
            &keypoints,
            &Pose3d::IDENTITY,
            limits,
            min,
        )
    };
    let (pose, inliers) = solve(4, limits(25.0, 3.0)).unwrap();
    assert!(is_near(&pose, &shifted()));
    assert_eq!(inliers, 6);
    assert_eq!(solve(4, limits(25.0, 100.0)).unwrap().1, 8);
    assert!(solve(6, limits(25.0, 3.0)).is_some());
    assert!(solve(7, limits(25.0, 3.0)).is_none());
    assert!(solve(9, limits(100.0, 3.0)).is_none());
    assert!(solve(4, limits(4.0, 3.0)).is_none());
    let found = solve_pnp(
        &points,
        &keypoints,
        &camera(),
        &Pose3d::IDENTITY,
        limits(25.0, 3.0),
        4,
    );
    assert_eq!(found.unwrap().1, 6);
    // Two correspondences are too few to refine a pose.
    let few: Vec<Vec3F64> = points[..2].to_vec();
    let found = solve_pnp(&few, &keypoints, &camera(), &Pose3d::IDENTITY, limits(25.0, 3.0), 2);
    assert!(found.is_none());
    // Too few points are no solution, whatever the number of pixels.
    let found = solve_pnp(&few, &vec![], &camera(), &Pose3d::IDENTITY, limits(25.0, 3.0), 3);
    assert!(found.is_none());
}

#[test]
fn inliers_are_counted_over_pairs() {
    let points = world_points(8);
    let pixels: Vec<Vec2F32> = points.iter().take(5).map(|p| see(&Pose3d::IDENTITY, p)).collect();
    let count = |pose: &Pose3d, threshold_px: f64| {
        let limit = (threshold_px * threshold_px).to_bits();
        count_reprojection_inliers(pose, &points, &pixels, &camera(), limit)
    };
    assert_eq!(count(&Pose3d::IDENTITY, 3.0), 5);
    assert_eq!(count(&shifted(), 3.0), 0);
    // The shift is five pixels at this depth.
    assert_eq!(count(&shifted(), 5.1), 5);
    assert_eq!(count(&shifted(), 4.9), 0);
    assert_eq!(count(&shifted(), f64::NAN), 0);
    let behind = Pose3d::new(Mat3F64::IDENTITY, Vec3F64::new(0.0, 0.0, -9.0));
    assert_eq!(count(&behind, f64::INFINITY), 0);
    let limit = 9.0f64.to_bits();
    let scored = score_refined(&points, &pixels, &camera(), Some(Pose3d::IDENTITY), limit);
    assert_eq!(scored.unwrap().1, 5);
    let pixels: Vec<Vec2F32> = points.iter().map(|p| see(&Pose3d::IDENTITY, p)).collect();
    assert!(score_refined(&points, &pixels, &camera(), None, limit).is_none());
    let scored = score_refined(&points, &pixels, &camera(), Some(Pose3d::IDENTITY), limit);
    assert_eq!(scored.unwrap().1, 8);
}

#[test]
fn default_thresholds() {
    assert_eq!(PnpConfig::default().limits, limits(25.0, 3.0));
    assert_eq!(PnpConfig::default().min_correspondences, 4);
    assert_eq!(PnpConfig::default().min_inliers_early, 10);
    assert_eq!(PnpConfig::default().min_inliers, 30);
    let config = MapProjectionConfig::default();
    assert_eq!(config.projection.search_radius, Vec2F32::new(15.0, 0.0));
    assert_eq!(config.local_projection.search_radius, Vec2F32::new(30.0, 0.0));
    assert!(config.match_config.check_orientation);
    assert_eq!(config.match_config.th_low, 50);
    assert_eq!(config.projection.max_hamming, 50);
    assert_eq!(config.local_projection.max_hamming, 60);
    let odometry = OdometryConfig::default();
    assert_eq!(odometry.min_inliers, 30);
    assert_eq!(odometry.max_consecutive_failures, 15);
    assert!(odometry.enable_local_ba);
    let tracker = OdometryEstimator::new(camera(), odometry);
    assert_eq!(tracker.config().pnp.min_correspondences, 4);
    assert_eq!(tracker.config().pnp.limits, limits(25.0, 3.0));
    assert_eq!(tracker.config().match_config.histo_length, 30);
    assert_eq!(tracker.config().match_config.nn_ratio, 0.6);
    assert_eq!(tracker.config().match_config.th_low, 50);
    assert_eq!(tracker.camera().fx, 500.0);
}
