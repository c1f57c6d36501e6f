use kornia_3d::ba::{self, BaObservation, BaParams};
use kornia_3d::camera::PinholeCamera;
use kornia_3d::pose::Pose3d;
use kornia_algebra::{Mat3F64, Vec2F32, Vec3F64};
use kornia_image::ImageSize;
use kornia_imgproc::features::OrbFeatures;
use kornia_slam::frame::Frame;
use kornia_slam::levenberg_marquardt::{levenberg_marquardt, LmKernel, LmOutcome, LmStep};
use kornia_slam::mapping::ba::{
    collect_window, run_local_ba, run_local_ba_with, write_back, BaProblem, BaSolution,
};
use kornia_slam::mapping::{Keyframe, MapPoint, SlamMap};
use kornia_slam::vi_ba_schur::{
    bundle_adjust_schur, bundle_adjust_schur_with_priors, schur_layout,
    visual_inertial_bundle_adjust, BaEdge, ImuEdge, LossKind, SchurBaError, SchurParams,
    SchurProblem, SchurReader, ViBaError, ViBaKeyframe, ViBaState, ViLayout, ViReader,
};

fn test_camera() -> PinholeCamera {
    PinholeCamera {
        fx: 800.0,
        fy: 800.0,
        cx: 320.0,
        cy: 240.0,
        k1: 0.0,
        k2: 0.0,
        p1: 0.0,
        p2: 0.0,
    }
}

fn project(pose: &Pose3d, pw: &Vec3F64) -> [f32; 2] {
    let cam = test_camera();
    let pc = pose.transform_point(pw);
    let u = cam.fx * pc.x / pc.z + cam.cx;
    let v = cam.fy * pc.y / pc.z + cam.cy;
    [u as f32, v as f32]
}

#[test]
fn test_local_ba_converges() {
    let cam = test_camera();

    let pose0 = Pose3d::new(Mat3F64::IDENTITY, Vec3F64::ZERO);
    let pose1 = Pose3d::new(Mat3F64::IDENTITY, Vec3F64::new(0.5, 0.0, 0.0));

    let true_points = vec![
        Vec3F64::new(-1.0, -1.0, 5.0),
        Vec3F64::new(1.0, -1.0, 5.0),
        Vec3F64::new(1.0, 1.0, 5.0),
        Vec3F64::new(-1.0, 1.0, 5.0),
    ];

    let mut observations = Vec::new();
    for (pi, pt) in true_points.iter().enumerate() {
        observations.push(BaObservation {
            pose_idx: 0,
            point_idx: pi,
            pixel: project(&pose0, pt),
            fixed_pose: true,
            ..BaObservation::default()
        });
        observations.push(BaObservation {
            pose_idx: 1,
            point_idx: pi,
            pixel: project(&pose1, pt),
            fixed_pose: false,
            ..BaObservation::default()
        });
    }

    let perturbed: Vec<Vec3F64> = true_points
        .iter()
        .map(|p| *p + Vec3F64::new(0.05, -0.03, 0.02))
        .collect();

    let result = ba::bundle_adjust(
        &[pose0, pose1],
        &perturbed,
        &observations,
        &cam,
        &BaParams {
            max_iterations: 20,
            ..BaParams::default()
        },
    )
    .unwrap();

    for (i, refined) in result.points.iter().enumerate() {
        let err = (*refined - true_points[i]).length();
        assert!(err < 0.1, "point {i} error {err} too large");
    }
}

fn true_points() -> Vec<Vec3F64> {
    (0..12)
        .map(|i| {
            let (x, y) = ((i % 4) as f64 - 1.5, (i / 4) as f64 - 1.0);
            Vec3F64::new(x, y, 5.0 + 0.3 * (i % 5) as f64)
        })
        .collect()
}

/// Five keyframes along x that see all points; the points are a little off.
fn local_map() -> SlamMap {
    let mut map = SlamMap::new();
    let points = true_points();
    for p in &points {
        map.push_map_point(MapPoint {
            position: *p + Vec3F64::new(0.05, -0.03, 0.02),
            descriptor: [0; 32],
            keyframe_idx: 0,
            n_visible: 1,
            n_found: 1,
            culled: false,
        });
    }
    for k in 0..5 {
        let pose = Pose3d::new(Mat3F64::IDENTITY, Vec3F64::new(0.3 * k as f64, 0.0, 0.0));
        let features = OrbFeatures {
            keypoints_xy: points.iter().map(|p| project(&pose, p)).collect(),
            orientations: vec![0.0; points.len()],
            descriptors: vec![[0; 32]; points.len()],
            octaves: vec![0; points.len()],
        };
        let size = ImageSize {
            width: 640,
            height: 480,
        };
        let mut kf = Keyframe::from_frame(Frame::new(k, features, pose, size));
        for d in 0..points.len() {
            kf.map_point_by_desc_idx[d] = Some(d);
        }
        map.upsert_keyframe(kf);
    }
    map
}

fn pixel(map: &SlamMap, k: usize, d: usize) -> Vec2F32 {
    let kp = map.keyframes()[k].frame.features.keypoints_xy[d];
    Vec2F32::new(kp[0], kp[1])
}

#[test]
fn local_window_holds_the_latest_keyframes() {
    let mut map = local_map();
    map.map_points_mut()[2].culled = true;
    map.keyframes_mut()[0].map_point_by_desc_idx[1] = None;
    map.keyframes_mut()[4].frame.features.keypoints_xy.truncate(11);
    let window = collect_window(&map, &test_camera()).unwrap();
    assert_eq!(window.active_start, 2);
    assert_eq!(window.globals, vec![0, 1, 3, 4, 5, 6, 7, 8, 9, 10, 11]);
    assert_eq!(window.problem.poses.len(), 5);
    assert_eq!(window.problem.points.len(), 11);
    assert_eq!(window.problem.links.len(), 10 + 11 + 11 + 11 + 10);
    let first = window.problem.links[0];
    assert_eq!((first.pose_idx, first.point_idx, first.fixed_pose), (0, 0, true));
    let second = window.problem.links[1];
    assert_eq!((second.pose_idx, second.point_idx), (0, 2));
    assert_eq!(second.pixel, pixel(&map, 0, 3));
    let later = window.problem.links[21];
    assert_eq!((later.pose_idx, later.point_idx, later.fixed_pose), (2, 0, false));
    assert!(collect_window(&SlamMap::new(), &test_camera()).is_none());
}

#[test]
fn local_adjustment_refines_the_window() {
    let mut map = local_map();
    run_local_ba(&mut map, &test_camera());
    for (i, p) in true_points().iter().enumerate() {
        let err = (map.map_points()[i].position - *p).length();
        assert!(err < 0.03, "point {i} error {err} too large");
    }
    assert_eq!(
        map.keyframes()[1].frame.pose_world_to_cam.translation,
        Vec3F64::new(0.3, 0.0, 0.0)
    );
}

#[test]
fn local_adjustment_writes_back_what_the_optimizer_gives() {
    let mut map = local_map();
    let before = map.clone();
    run_local_ba_with(&mut map, &test_camera(), |_: &BaProblem| None);
    assert_eq!(map.map_points()[0].position, before.map_points()[0].position);
    run_local_ba_with(
        &mut map,
        &test_camera(),
        |problem: &BaProblem| {
            Some(BaSolution {
                poses: vec![Pose3d::IDENTITY; problem.poses.len()],
                points: vec![Vec3F64::ZERO; problem.points.len()],
            })
        },
    );
    let xs: Vec<f64> = map
        .keyframes()
        .iter()
        .map(|kf| kf.frame.pose_world_to_cam.translation.x)
        .collect();
    assert_eq!(xs, vec![0.0, 0.3, 0.0, 0.0, 0.0]);
    assert!(map.map_points().iter().all(|mp| mp.position == Vec3F64::ZERO));

    let mut small = SlamMap::new();
    small.push_map_point(before.map_points()[0]);
    write_back(
        &mut small,
        0,
        &vec![0],
        &BaSolution {
            poses: Vec::new(),
            points: vec![Vec3F64::new(1.0, 2.0, 3.0)],
        },
    );
    assert_eq!(small.map_points()[0].position, Vec3F64::new(1.0, 2.0, 3.0));
}

fn edge(pose_idx: usize, point_idx: usize, fixed_pose: bool, fixed_point: bool) -> BaEdge {
    BaEdge {
        pose_idx,
        point_idx,
        fixed_pose,
        fixed_point,
    }
}

#[test]
fn layout_numbers_what_is_free() {
    let edges = [
        edge(0, 0, true, false),
        edge(2, 0, false, false),
        edge(3, 2, false, true),
        edge(9, 1, false, false),
        edge(3, 0, false, false),
        edge(2, 3, true, false),
    ];
    let layout = schur_layout(&edges, 4, 4);
    assert_eq!(layout.poses.local, vec![None, None, Some(0), Some(1)]);
    assert_eq!(layout.poses.count, 2);
    assert_eq!(layout.points.local, vec![Some(0), None, None, Some(1)]);
    assert_eq!(layout.points.count, 2);
    assert_eq!(layout.by_point, vec![vec![1, 4], vec![5]]);
}

/// Halves the distance of a number to ten; the damping is a counter.
fn halving(limit: u32) -> impl Fn(&f64, &u32) -> LmStep<f64, String> {
    move |x: &f64, lambda: &u32| {
        if *lambda > limit {
            LmStep::Failed(format!("at {lambda}"))
        } else if (10.0 - x).abs() < 1e-9 {
            LmStep::Worse
        } else {
            let next = x + (10.0 - x) / 2.0;
            LmStep::Better {
                state: next,
                small: (10.0 - next).abs() < 1.0,
            }
        }
    }
}

#[test]
fn the_damped_loop_accepts_and_rejects() {
    let kernel = LmKernel {
        step: |_: &(), x: &f64, lambda: &u32| halving(100)(x, lambda),
        raise: |lambda: &u32| (lambda + 1, lambda + 1 > 3),
        lower: |lambda: &u32| lambda.saturating_sub(1),
    };
    match levenberg_marquardt(&kernel, &(), 0.0, 0u32, 10) {
        LmOutcome::Finished {
            state,
            iterations,
            converged,
        } => assert_eq!((state, iterations, converged), (9.375, 4, true)),
        LmOutcome::Failed(why) => panic!("failed: {why}"),
    }
    match levenberg_marquardt(&kernel, &(), 0.0, 0u32, 2) {
        LmOutcome::Finished {
            state,
            iterations,
            converged,
        } => assert_eq!((state, iterations, converged), (7.5, 2, false)),
        LmOutcome::Failed(why) => panic!("failed: {why}"),
    }
    match levenberg_marquardt(&kernel, &(), 10.0, 0u32, 10) {
        LmOutcome::Finished {
            state,
            iterations,
            converged,
        } => assert_eq!((state, iterations, converged), (10.0, 4, false)),
        LmOutcome::Failed(why) => panic!("failed: {why}"),
    }
    let failing = LmKernel {
        step: |_: &(), x: &f64, lambda: &u32| halving(0)(x, lambda),
        raise: |lambda: &u32| (lambda + 1, lambda + 1 > 3),
        lower: |lambda: &u32| *lambda,
    };
    match levenberg_marquardt(&failing, &(), 0.0, 1u32, 10) {
        LmOutcome::Failed(why) => assert_eq!(why, "at 3"),
        LmOutcome::Finished { .. } => panic!("expected a failure"),
    }
}

#[test]
fn schur_adjustment_returns_fixed_variables_unchanged() {
    let poses = vec![Pose3d::IDENTITY; 2];
    let points = vec![Vec3F64::new(1.0, 1.0, 1.0); 2];
    let edges = [edge(0, 0, true, false), edge(1, 0, false, false)];
    let kernel = LmKernel {
        step: |problem: &SchurProblem<f64>, x: &f64, lambda: &u32| {
            let layout = &problem.layout;
            assert_eq!((layout.poses.count, layout.points.count), (1, 1));
            // A prior draws the number away from where it would go.
            let pull: f64 = problem.priors.iter().map(|p| p.prior).sum();
            for p in &problem.priors {
                assert_eq!((p.pose_idx, p.local), (1, 0));
            }
            halving(100)(&(x + pull), lambda)
        },
        raise: |lambda: &u32| (lambda + 1, false),
        lower: |lambda: &u32| *lambda,
    };
    let reader = SchurReader {
        pose: |x: &f64, i: usize| {
            Pose3d::new(Mat3F64::IDENTITY, Vec3F64::new(*x, i as f64, 0.0))
        },
        point: |x: &f64, i: usize| Vec3F64::new(*x, i as f64, 0.0),
    };
    let within = |max_iterations: usize, robust: LossKind| SchurParams {
        max_iterations,
        robust,
    };
    let plain = within(2, LossKind::Identity);
    let adjust = |edges: &[BaEdge], priors: Option<&[Option<f64>]>| {
        bundle_adjust_schur_with_priors(
            &poses, &points, edges, priors, plain, 0.0, 0u32, &kernel, &reader,
        )
    };
    let result = adjust(&edges, Some(&[None, None])).unwrap();
    assert_eq!(result.poses[0].translation, Vec3F64::ZERO);
    assert_eq!(result.poses[1].translation, Vec3F64::new(7.5, 1.0, 0.0));
    assert_eq!(result.points, vec![Vec3F64::new(7.5, 0.0, 0.0), points[1]]);
    assert_eq!((result.iterations, result.converged), (2, false));
    // A prior counts on a free pose, and is ignored on a held one.
    let x = |priors: Option<&[Option<f64>]>| adjust(&edges, priors).unwrap().poses[1].translation.x;
    assert_eq!(x(None), 7.5);
    assert_eq!(x(Some(&[Some(4.0), None])), 7.5);
    assert_eq!(x(Some(&[Some(4.0), Some(2.0)])), 9.0);
    assert!(matches!(
        adjust(&edges, Some(&[None, None, Some(1.0)])),
        Err(SchurBaError::PriorCount { priors: 3, poses: 2 })
    ));
    assert!(matches!(adjust(&edges[..1], None), Err(SchurBaError::NoFreeVariables)));
    // The loss that is asked for has no effect.
    for robust in [LossKind::Identity, LossKind::Huber, LossKind::Cauchy, LossKind::Tukey] {
        let params = within(2, robust);
        let result =
            bundle_adjust_schur(&poses, &points, &edges, params, 0.0, 0u32, &kernel, &reader)
                .unwrap();
        assert_eq!(result.poses[1].translation, Vec3F64::new(7.5, 1.0, 0.0));
        assert_eq!((result.iterations, result.converged), (2, false));
    }

    let failing = LmKernel {
        step: |_: &SchurProblem<f64>, _: &f64, _: &u32| LmStep::Failed("singular".to_string()),
        raise: |lambda: &u32| (lambda + 1, lambda + 1 > 3),
        lower: |lambda: &u32| *lambda,
    };
    let params = within(9, LossKind::Identity);
    let failed = bundle_adjust_schur(&poses, &points, &edges, params, 0.0, 0u32, &failing, &reader);
    assert!(matches!(failed, Err(SchurBaError::CholeskyFailed(why)) if why == "singular"));
}

#[test]
fn visual_inertial_adjustment_names_its_errors_and_its_layout() {
    let keyframe = |fixed: bool| ViBaKeyframe {
        pose: Pose3d::IDENTITY,
        velocity: Vec3F64::ZERO,
        bias: 0u8,
        fixed,
    };
    let imu = |from_idx: usize, to_idx: usize| ImuEdge {
        from_idx,
        to_idx,
        preintegrated: (),
    };
    let points = vec![Vec3F64::ZERO; 3];
    let edges = [
        edge(9, 2, false, false),
        edge(1, 0, false, false),
        edge(1, 2, false, false),
        edge(1, 1, false, true),
    ];
    let kernel = LmKernel {
        step: |layout: &ViLayout, x: &f64, lambda: &u32| {
            assert_eq!(layout.keyframes.local, vec![None, Some(0), None, Some(1)]);
            assert_eq!(layout.points.local, vec![Some(1), None, Some(0)]);
            assert_eq!(layout.by_point, vec![vec![2], vec![1]]);
            assert_eq!(layout.imu_edges, vec![0, 2]);
            halving(100)(x, lambda)
        },
        raise: |lambda: &u32| (lambda + 1, false),
        lower: |lambda: &u32| *lambda,
    };
    let reader = ViReader {
        keyframe: |x: &f64, i: usize| ViBaState {
            pose: Pose3d::IDENTITY,
            velocity: Vec3F64::new(*x, i as f64, 0.0),
            bias: 7u8,
        },
        point: |x: &f64, _: usize| Vec3F64::new(*x, 0.0, 0.0),
        cost: |x: &f64| 10.0 - x,
    };
    let keyframes = [keyframe(true), keyframe(false), keyframe(false), keyframe(false)];
    let adjust = |keyframes: &[ViBaKeyframe<u8>], edges: &[BaEdge], imu_edges: &[ImuEdge<()>]| {
        visual_inertial_bundle_adjust(
            keyframes, &points, edges, imu_edges, 3, 0.0, 0u32, &kernel, &reader,
        )
    };
    let result = adjust(&keyframes, &edges, &[imu(0, 1), imu(0, 0), imu(3, 1)]).unwrap();
    let bias: Vec<u8> = result.keyframes.iter().map(|kf| kf.bias).collect();
    assert_eq!(bias, vec![0, 7, 0, 7]);
    let fixed: Vec<bool> = result.keyframes.iter().map(|kf| kf.fixed).collect();
    assert_eq!(fixed, vec![true, false, false, false]);
    assert_eq!(result.points[0].x, 8.75);
    assert_eq!(result.points[1].x, 0.0);
    assert_eq!((result.iterations, result.converged, result.final_cost), (3, false, 1.25));
    assert!(matches!(
        adjust(&keyframes, &edges, &[imu(0, 1), imu(4, 0), imu(0, 5)]),
        Err(ViBaError::ImuEdgeOutOfRange(4, 0))
    ));
    assert!(matches!(
        adjust(&keyframes[..1], &edges, &[imu(9, 9)]),
        Err(ViBaError::NoFreeVariables)
    ));
    let failing = LmKernel {
        step: |_: &ViLayout, _: &f64, _: &u32| LmStep::Failed("singular".to_string()),
        raise: |lambda: &u32| (lambda + 1, lambda + 1 > 3),
        lower: |lambda: &u32| *lambda,
    };
    let failed = visual_inertial_bundle_adjust(
        &keyframes,
        &points,
        &edges,
        &[imu(0, 1)],
        9,
        0.0,
        0u32,
        &failing,
        &reader,
    );
    assert!(matches!(failed, Err(ViBaError::CholeskyFailed(why)) if why == "singular"));
}
