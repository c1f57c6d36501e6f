use kornia_3d::camera::PinholeCamera;
use kornia_3d::pose::Pose3d;
use kornia_algebra::{Mat3F64, Vec2F64, Vec3F64};
use kornia_image::ImageSize;
use kornia_imgproc::features::OrbFeatures;
use kornia_slam::frame::Frame;
use kornia_slam::mapping::growth::{grow_from_inliers, growth_pairs, triangulate_pair, Sight};
use kornia_slam::mapping::{build_initial_map, cull_map_points, Keyframe, MapPoint, SlamMap};

fn size() -> ImageSize {
    ImageSize {
        width: 640,
        height: 480,
    }
}

fn features(keypoints_xy: Vec<[f32; 2]>, orientations: Vec<f32>, descriptors: Vec<[u8; 32]>) -> OrbFeatures {
    let octaves = vec![0u8; keypoints_xy.len()];
    OrbFeatures {
        keypoints_xy,
        orientations,
        descriptors,
        octaves,
    }
}

fn n_features(n: usize) -> OrbFeatures {
    features(
        vec![[1.0, 1.0]; n],
        vec![0.0; n],
        (0..n).map(|i| [i as u8; 32]).collect(),
    )
}

fn point(z: f64, n_visible: u32, n_found: u32) -> MapPoint {
    MapPoint {
        position: Vec3F64::new(0.0, 0.0, z),
        descriptor: [0u8; 32],
        keyframe_idx: 0,
        n_visible,
        n_found,
        culled: false,
    }
}

#[test]
fn keyframe_from_frame_initializes_map_point_slots() {
    let features = features(
        vec![[0.0, 1.0], [2.0, 3.0], [4.0, 5.0]],
        vec![0.1, 0.2, 0.3],
        vec![[0u8; 32], [1u8; 32], [2u8; 32]],
    );
    let frame = Frame::new(7, features, Pose3d::IDENTITY, size());
    let keyframe = Keyframe::from_frame(frame);

    assert_eq!(keyframe.frame.idx, 7);
    assert_eq!(keyframe.frame.features.descriptors.len(), 3);
    assert_eq!(keyframe.map_point_by_desc_idx.len(), 3);
    assert!(keyframe
        .map_point_by_desc_idx
        .iter()
        .all(|slot| slot.is_none()));
}

#[test]
fn upsert_keyframe_replaces_existing_idx() {
    let mut map = SlamMap::new();
    let first = Keyframe::from_frame(Frame::new(
        10,
        features(
            vec![[0.0, 0.0], [1.0, 1.0]],
            vec![0.1, 0.2],
            vec![[0u8; 32], [1u8; 32]],
        ),
        Pose3d::IDENTITY,
        size(),
    ));
    map.upsert_keyframe(first);
    assert_eq!(map.keyframes().len(), 1);

    let second = Keyframe::from_frame(Frame::new(
        10,
        features(vec![[2.0, 2.0]], vec![0.3], vec![[2u8; 32]]),
        Pose3d::IDENTITY,
        size(),
    ));
    map.upsert_keyframe(second);

    assert_eq!(map.keyframes().len(), 1);
    assert_eq!(
        map.get_keyframe(10)
            .expect("expected keyframe with idx 10")
            .frame
            .features
            .descriptors
            .len(),
        1
    );
    assert!(map.get_keyframe(11).is_none());
}

#[test]
fn push_map_point_returns_sequential_index() {
    let mut map = SlamMap::new();

    let first_idx = map.push_map_point(MapPoint {
        position: Vec3F64::new(0.0, 0.0, 1.0),
        descriptor: [0u8; 32],
        keyframe_idx: 0,
        n_visible: 0,
        n_found: 0,
        culled: false,
    });
    let second_idx = map.push_map_point(MapPoint {
        position: Vec3F64::new(1.0, 0.0, 1.0),
        descriptor: [1u8; 32],
        keyframe_idx: 0,
        n_visible: 0,
        n_found: 0,
        culled: false,
    });

    assert_eq!(first_idx, 0);
    assert_eq!(second_idx, 1);
    assert_eq!(map.map_points().len(), 2);
}

#[test]
fn test_cull_map_points_removes_low_ratio() {
    let mut map = SlamMap::new();

    map.push_map_point(MapPoint {
        position: Vec3F64::new(0.0, 0.0, 5.0),
        descriptor: [0u8; 32],
        keyframe_idx: 0,
        n_visible: 10,
        n_found: 1,
        culled: false,
    });
    map.push_map_point(MapPoint {
        position: Vec3F64::new(1.0, 0.0, 5.0),
        descriptor: [1u8; 32],
        keyframe_idx: 0,
        n_visible: 10,
        n_found: 5,
        culled: false,
    });

    cull_map_points(&mut map);

    assert!(map.map_points()[0].culled);
    assert!(!map.map_points()[1].culled);
}

#[test]
fn cull_ratio_boundary_and_minimum() {
    let mut map = SlamMap::new();
    map.push_map_point(point(5.0, 10, 2));
    map.push_map_point(point(5.0, 11, 2));
    map.push_map_point(point(5.0, 4, 0));
    map.push_map_point(point(5.0, 5, 0));
    map.push_map_point(point(5.0, u32::MAX, u32::MAX));
    cull_map_points(&mut map);
    let culled: Vec<bool> = map.map_points().iter().map(|mp| mp.culled).collect();
    assert_eq!(culled, vec![false, true, false, true, false]);
}

#[test]
fn cull_removes_points_behind_a_camera_and_their_links() {
    let mut map = SlamMap::new();
    map.push_map_point(point(5.0, 1, 1));
    map.push_map_point(point(-5.0, 1, 1));
    let mut kf = Keyframe::from_frame(Frame::new(0, n_features(3), Pose3d::IDENTITY, size()));
    kf.map_point_by_desc_idx = vec![Some(1), Some(0), Some(7)];
    map.upsert_keyframe(kf);

    cull_map_points(&mut map);

    assert!(!map.map_points()[0].culled);
    assert!(map.map_points()[1].culled);
    assert_eq!(
        map.keyframes()[0].map_point_by_desc_idx,
        vec![None, Some(0), Some(7)]
    );

    cull_map_points(&mut map);
    assert_eq!(
        map.keyframes()[0].map_point_by_desc_idx,
        vec![None, Some(0), Some(7)]
    );
}

#[test]
fn build_initial_map_populates_map_and_keyframe_links() {
    let mut map = SlamMap::new();

    let reference_features = features(vec![[100.0, 100.0]], vec![0.1], vec![[7u8; 32]]);
    let reference_frame = Frame::new(0, reference_features, Pose3d::IDENTITY, size());
    let current_features = features(vec![[101.0, 99.0]], vec![0.2], vec![[9u8; 32]]);

    let pose = Pose3d::IDENTITY;
    let matches = vec![(0usize, 0usize)];
    let points3d = vec![Vec3F64::new(0.0, 0.0, 2.0)];
    let median_depth = Some(Vec3F64::new(0.0, 0.0, 2.0));
    let inlier_indices = vec![0];

    let current_frame = Frame::new(1, current_features, pose, size());

    let added = build_initial_map(
        &mut map,
        reference_frame,
        current_frame,
        &matches,
        &points3d,
        &inlier_indices,
        median_depth,
    );

    assert_eq!(added, 1);
    assert_eq!(map.map_points().len(), 1);
    assert_eq!(map.map_points()[0].position, Vec3F64::new(0.0, 0.0, 1.0));

    let kf0 = map.get_keyframe(0).expect("expected reference keyframe");
    let kf1 = map.get_keyframe(1).expect("expected current keyframe");
    assert_eq!(kf0.map_point_by_desc_idx[0], Some(0));
    assert_eq!(kf1.map_point_by_desc_idx[0], Some(0));
    assert_eq!(map.map_points()[0].descriptor, [9u8; 32]);
    assert_eq!(map.map_points()[0].keyframe_idx, 0);
}

#[test]
fn initial_map_skips_unusable_inliers_and_uses_the_reference_pose() {
    let mut map = SlamMap::new();
    map.push_map_point(point(1.0, 1, 1));
    let shifted = Pose3d::new(Mat3F64::IDENTITY, Vec3F64::new(1.0, 0.0, 0.0));
    let added = build_initial_map(
        &mut map,
        Frame::new(3, n_features(2), shifted, size()),
        Frame::new(4, n_features(2), Pose3d::IDENTITY, size()),
        &[(0, 5), (1, 0), (1, 1)],
        &[
            Vec3F64::new(0.0, 0.0, 1.0),
            Vec3F64::new(0.0, 0.0, 2.0),
            Vec3F64::new(0.0, 0.0, 3.0),
            Vec3F64::new(0.0, 0.0, 4.0),
        ],
        &[0, 9, 1, 2, 2],
        Some(Vec3F64::new(5.0, 5.0, 1e-6)),
    );
    assert_eq!(added, 2);
    assert_eq!(map.map_points()[1].position, Vec3F64::new(-1.0, 0.0, 3.0));
    assert_eq!(map.map_points()[2].position, Vec3F64::new(-1.0, 0.0, 4.0));
    let kf3 = map.get_keyframe(3).unwrap();
    assert_eq!(kf3.map_point_by_desc_idx, vec![None, Some(2)]);
    let kf4 = map.get_keyframe(4).unwrap();
    assert_eq!(kf4.map_point_by_desc_idx, vec![Some(1), Some(2)]);
}

fn camera() -> PinholeCamera {
    PinholeCamera {
        fx: 100.0,
        fy: 100.0,
        cx: 320.0,
        cy: 240.0,
        k1: 0.0,
        k2: 0.0,
        p1: 0.0,
        p2: 0.0,
    }
}

fn ray(p: &Vec2F64) -> Vec3F64 {
    Vec3F64::new((p.x - 320.0) / 100.0, (p.y - 240.0) / 100.0, 1.0).normalize()
}

/// The angle between the rays to a point, in degrees.
fn parallax(relative: &Pose3d, point: &Vec3F64) -> Option<u64> {
    let center = -(relative.rotation.transpose() * relative.translation);
    let (a, b) = (point.normalize(), (*point - center).normalize());
    Some(a.dot(b).clamp(-1.0, 1.0).acos().to_degrees().to_bits())
}

fn sight(
    min_parallax: f64,
) -> Sight<fn(&Vec2F64) -> Vec3F64, fn(&Pose3d, &Vec3F64) -> Option<u64>> {
    Sight {
        ray,
        parallax,
        min_parallax: min_parallax.to_bits(),
    }
}

fn look(pose: &Pose3d, point: &Vec3F64) -> Vec2F64 {
    let p = pose.transform_point(point);
    Vec2F64::new(100.0 * p.x / p.z + 320.0, 100.0 * p.y / p.z + 240.0)
}

/// Features of points as seen from a pose; the points are placed so that every pixel is exact.
fn seen(points: &[Vec3F64], pose: &Pose3d) -> OrbFeatures {
    let n = points.len();
    let keypoints = points
        .iter()
        .map(|p| look(pose, p))
        .map(|p| [p.x as f32, p.y as f32])
        .collect();
    let descriptors = (0..n).map(|i| [i as u8; 32]).collect();
    features(keypoints, vec![0.0; n], descriptors)
}

fn points_in_front(n: usize) -> Vec<Vec3F64> {
    (0..n)
        .map(|i| Vec3F64::new((i % 6) as f64 * 0.25, (i / 6) as f64 * 0.25, 3.0))
        .collect()
}

#[test]
fn pairs_are_triangulated_where_all_tests_pass() {
    let relative = Pose3d::new(Mat3F64::IDENTITY, Vec3F64::new(-1.0, 0.0, 0.0));
    let shown = |min_parallax: f64, point: Vec3F64, off: f64| {
        let prev = look(&Pose3d::IDENTITY, &point);
        let curr = look(&relative, &point) + Vec2F64::new(0.0, off);
        triangulate_pair(&sight(min_parallax), &camera(), &relative, &prev, &curr)
    };
    let point = Vec3F64::new(0.5, 0.0, 2.0);
    let found = shown(1.0, point, 0.0).unwrap();
    assert!((found - point).length() < 1e-9);
    // The angle is twice that whose tangent is a quarter: a little over 28 degrees.
    assert!(shown(28.0, point, 0.0).is_some());
    assert!(shown(28.1, point, 0.0).is_none());
    // Half of what a pixel is off shows at each camera.
    assert!(shown(1.0, point, 5.5).is_some());
    assert!(shown(1.0, point, 6.5).is_none());
    // Rays that pass further than a quarter from each other.
    let far = Vec3F64::new(0.5, 0.0, 20.0);
    assert!(shown(0.1, far, 1.0).is_some());
    assert!(shown(0.1, far, 2.0).is_none());
    // In front of the first camera, behind the second.
    let turned = Pose3d::new(
        Mat3F64::from_cols(
            Vec3F64::new(-1.0, 0.0, 0.0),
            Vec3F64::new(0.0, 1.0, 0.0),
            Vec3F64::new(0.0, 0.0, -1.0),
        ),
        Vec3F64::new(1.0, 0.0, 0.0),
    );
    let prev = look(&Pose3d::IDENTITY, &point);
    let curr = look(&turned, &point);
    assert!(triangulate_pair(&sight(1.0), &camera(), &turned, &prev, &curr).is_none());
    // The same ray twice meets nowhere.
    assert!(triangulate_pair(&sight(0.0), &camera(), &relative, &prev, &prev).is_none());
}

#[test]
fn growth_adds_a_point_per_free_inlier() {
    let mut map = SlamMap::new();
    map.push_map_point(point(1.0, 1, 1));
    let n = 24;
    let points = points_in_front(n);
    let prev = Pose3d::new(Mat3F64::IDENTITY, Vec3F64::new(0.0, 0.0, 1.0));
    let pose = Pose3d::new(Mat3F64::IDENTITY, Vec3F64::new(-1.0, 0.0, 1.0));
    let mut prev_kf = Keyframe::from_frame(Frame::new(0, seen(&points, &prev), prev, size()));
    prev_kf.map_point_by_desc_idx[3] = Some(0);
    let mut curr = seen(&points, &pose);
    // The pixels of the first pair show no point.
    curr.keypoints_xy[0][1] += 50.0;
    let mut slots: Vec<Option<usize>> = vec![None; n];
    slots[5] = Some(0);
    let matches: Vec<(usize, usize)> = (0..n).map(|i| (i, i)).collect();
    let pairs = growth_pairs(&matches, &prev_kf, &curr, &slots);
    assert_eq!(pairs.len(), 22);
    let inliers: Vec<usize> = (0..16).chain([0, 99]).collect();
    let added = grow_from_inliers(
        &mut map,
        &camera(),
        9,
        &prev_kf,
        &curr,
        &mut slots,
        &pose,
        &matches,
        &pairs,
        Some(inliers),
        &sight(1.0),
    );
    assert_eq!(added, 15);
    assert_eq!(map.map_points().len(), 16);
    assert!((map.map_points()[1].position - points[1]).length() < 1e-9);
    assert_eq!(map.map_points()[1].descriptor, [1u8; 32]);
    assert_eq!(map.map_points()[1].keyframe_idx, 9);
    assert_eq!(slots[0], None);
    assert_eq!(slots[1], Some(1));
    assert_eq!(slots[3], None);
    assert_eq!(slots[5], Some(0));
    assert_eq!(slots[17], Some(15));
    assert_eq!(slots[18], None);
}

#[test]
fn growth_counts_points_without_a_slot() {
    let points = points_in_front(18);
    let pose = Pose3d::new(Mat3F64::IDENTITY, Vec3F64::new(-1.0, 0.0, 0.0));
    let first = seen(&points, &Pose3d::IDENTITY);
    let prev_kf = Keyframe::from_frame(Frame::new(0, first, Pose3d::IDENTITY, size()));
    let mut curr = seen(&points, &pose);
    // Only keypoints that are matched need a descriptor.
    curr.keypoints_xy.push([1.0, 1.0]);
    let mut map = SlamMap::new();
    // Slots for ten of the eighteen keypoints.
    let mut slots: Vec<Option<usize>> = vec![None; 10];
    let matches: Vec<(usize, usize)> = (0..18).map(|i| (i, i)).collect();
    let pairs = growth_pairs(&matches, &prev_kf, &curr, &slots);
    let added = grow_from_inliers(
        &mut map,
        &camera(),
        1,
        &prev_kf,
        &curr,
        &mut slots,
        &pose,
        &matches,
        &pairs,
        Some((0..18).collect()),
        &sight(1.0),
    );
    assert_eq!(added, 18);
    assert_eq!(map.map_points().len(), 18);
    assert_eq!(slots, (0..10).map(Some).collect::<Vec<_>>());
}

#[test]
fn growth_stops_early_with_too_little() {
    let points = points_in_front(30);
    let grow = |inliers: Option<Vec<usize>>, baseline: f64| {
        let pose = Pose3d::new(Mat3F64::IDENTITY, Vec3F64::new(0.0, baseline, 0.0));
        let first = seen(&points, &Pose3d::IDENTITY);
        let prev_kf = Keyframe::from_frame(Frame::new(0, first, Pose3d::IDENTITY, size()));
        let curr = seen(&points, &pose);
        let mut map = SlamMap::new();
        let mut slots: Vec<Option<usize>> = vec![None; 30];
        let matches: Vec<(usize, usize)> = (0..20).map(|i| (i, i)).collect();
        let pairs = growth_pairs(&matches, &prev_kf, &curr, &slots);
        let added = grow_from_inliers(
            &mut map,
            &camera(),
            1,
            &prev_kf,
            &curr,
            &mut slots,
            &pose,
            &matches,
            &pairs,
            inliers,
            &sight(1.0),
        );
        assert_eq!(added, map.map_points().len());
        added
    };
    let inliers: Vec<usize> = (0..15).collect();
    assert_eq!(grow(None, 1.0), 0);
    assert_eq!(grow(Some((0..14).collect()), 1.0), 0);
    assert_eq!(grow(Some(inliers.clone()), 1e-8), 0);
    assert_eq!(grow(Some(inliers), 1.0), 15);
}

#[test]
fn a_copy_of_the_map_is_equal() {
    let mut map = SlamMap::new();
    map.push_map_point(point(5.0, 1, 1));
    let mut kf = Keyframe::from_frame(Frame::new(3, n_features(2), Pose3d::IDENTITY, size()));
    kf.map_point_by_desc_idx[1] = Some(0);
    map.upsert_keyframe(kf);
    let copy = map.clone();
    assert_eq!(copy.map_points().len(), 1);
    assert_eq!(copy.keyframes()[0].map_point_by_desc_idx, vec![None, Some(0)]);
    assert_eq!(copy.keyframes()[0].frame.features.descriptors, vec![[0u8; 32], [1u8; 32]]);
    assert_eq!(copy.keyframes()[0].frame.features.octaves, vec![0, 0]);
    assert_eq!(copy.keyframes()[0].frame.features.keypoints_xy.len(), 2);
}

#[test]
fn local_map_takes_matched_and_linked_points() {
    let mut map = SlamMap::new();
    for i in 0..8 {
        let mut mp = point(1.0, 1, 1);
        mp.keyframe_idx = i;
        map.push_map_point(mp);
    }
    for k in 0..14 {
        let mut kf = Keyframe::from_frame(Frame::new(k, n_features(1), Pose3d::IDENTITY, size()));
        kf.map_point_by_desc_idx[0] = if k < 8 { Some(k) } else { None };
        map.upsert_keyframe(kf);
    }
    // Keyframes 4.. are recent; keyframe 0 is voted for; keyframe 2 is current.
    let current = map.get_keyframe(2);
    let (points, indices) = map.build_local_map_points(&[(0, 3), (0, 4), (99, 1)], current);
    assert_eq!(indices, vec![0, 2, 4, 5, 6, 7]);
    assert_eq!(points.len(), 6);

    // Too few points: the whole map.
    let mut small = SlamMap::new();
    for _ in 0..5 {
        small.push_map_point(point(1.0, 1, 1));
    }
    small.map_points_mut()[1].culled = true;
    let (points, indices) = small.build_local_map_points(&[(0, 0)], None);
    assert_eq!(indices, vec![0, 1, 2, 3, 4]);
    assert_eq!(points.len(), 4);
}

#[test]
fn local_map_prefers_more_votes_then_later_keyframes() {
    let mut map = SlamMap::new();
    for i in 0..24 {
        let mut mp = point(1.0, 1, 1);
        mp.keyframe_idx = i % 12;
        map.push_map_point(mp);
    }
    for k in 0..30 {
        let mut kf = Keyframe::from_frame(Frame::new(k, n_features(1), Pose3d::IDENTITY, size()));
        kf.map_point_by_desc_idx[0] = if k < 12 { Some(12 + k) } else { None };
        map.upsert_keyframe(kf);
    }
    // Every keyframe below 12 has one vote, keyframe 0 two: 0 and the nine latest are in.
    let mut matched: Vec<(usize, usize)> = (0..12).map(|i| (i, i)).collect();
    matched.push((0, 20));
    let (_, indices) = map.build_local_map_points(&matched, None);
    let mut expected: Vec<usize> = (0..12).collect();
    expected.push(12);
    expected.extend(15..24);
    assert_eq!(indices, expected);
}

#[test]
fn a_point_at_the_camera_is_behind_it() {
    let culled = |z: f64| {
        let mut map = SlamMap::new();
        map.push_map_point(MapPoint {
            position: Vec3F64::new(0.0, 0.0, z),
            descriptor: [0; 32],
            keyframe_idx: 0,
            n_visible: 1,
            n_found: 1,
            culled: false,
        });
        let mut kf = Keyframe::from_frame(Frame::new(0, n_features(1), Pose3d::IDENTITY, size()));
        kf.map_point_by_desc_idx[0] = Some(0);
        map.upsert_keyframe(kf);
        cull_map_points(&mut map);
        map.map_points()[0].culled
    };
    assert!(culled(-1.0));
    assert!(culled(-0.0));
    assert!(culled(1e-8));
    assert!(!culled(1.1e-8));
    assert!(!culled(f64::NAN));
}
