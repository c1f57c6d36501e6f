use kornia_3d::pose::Pose3d;
use kornia_algebra::{Mat3F64, Vec2F32, Vec3F64};
use kornia_image::ImageSize;
use kornia_imgproc::features::OrbFeatures;
use kornia_slam::estimation::imu_init::{
    accept_solution, estimate_gyro_bias, solve_linear, Alignment, ImuBias, ImuFactor,
    ImuInitConfig, ImuInitResult, ImuInitializer, InertialState, InitEdge, InitProblem,
    LinearEquations, LinearLayout, LinearTerms, VelocitySeeds,
};
use kornia_slam::frame::Frame;
use kornia_slam::mapping::{Keyframe, MapPoint, SlamMap};
use kornia_slam::system::{SystemMode, SystemState};

fn keyframe(idx: usize, x: f64) -> Keyframe {
    let features = OrbFeatures {
        keypoints_xy: Vec::new(),
        orientations: Vec::new(),
        descriptors: Vec::new(),
        octaves: Vec::new(),
    };
    let pose = Pose3d::new(Mat3F64::IDENTITY, Vec3F64::new(-x, 0.0, 0.0));
    let size = ImageSize {
        width: 640,
        height: 480,
    };
    Keyframe::from_frame(Frame::new(idx, features, pose, size))
}

fn map_of(idx: &[usize]) -> SlamMap {
    let mut map = SlamMap::new();
    for i in idx {
        map.upsert_keyframe(keyframe(*i, *i as f64));
    }
    map
}

fn factor(prev: usize, curr: usize, dt: f64) -> ImuFactor<f64> {
    ImuFactor {
        prev_kf_idx: prev,
        curr_kf_idx: curr,
        preintegrated: dt,
    }
}

fn initializer(min_keyframes: usize, min_motion: f64) -> ImuInitializer<f64> {
    ImuInitializer::new(ImuInitConfig {
        min_keyframes,
        min_time_sec: 1.0,
        min_motion: min_motion.to_bits(),
    })
}

#[test]
fn readiness_needs_keyframes_time_and_motion() {
    let factors = [factor(1, 2, 5.0), factor(2, 3, 0.8), factor(3, 4, 0.8)];
    let ready = |map: &SlamMap, start: Option<usize>, min_keyframes: usize, min_motion: f64| {
        let enough_time = |spanning: &Vec<usize>, is_mono: bool| {
            let time: f64 = spanning.iter().map(|f| factors[*f].preintegrated).sum();
            time >= if is_mono { 2.0 } else { 1.0 }
        };
        initializer(min_keyframes, min_motion).ready(map, &factors, start, &enough_time)
    };
    let map = map_of(&[1, 2, 3, 4]);
    assert!(!ready(&map, None, 2, 0.5));
    assert!(ready(&map, Some(2), 2, 2.0));
    assert!(!ready(&map, Some(2), 2, 2.5));
    assert!(!ready(&map, Some(2), 2, f64::NAN));
    assert!(!ready(&map, Some(2), 4, 0.5));
    assert!(!ready(&map, Some(3), 2, 0.5));
    let mut stereo = map_of(&[1, 2, 3, 4]);
    stereo.keyframes_mut()[2].frame.stereo.push(Some(Vec2F32::ZERO));
    assert!(ready(&stereo, Some(3), 2, 0.5));
}

fn bias(x: f64) -> ImuBias {
    ImuBias {
        gyro: Vec3F64::new(x, 0.0, 0.0),
        accel: Vec3F64::ZERO,
    }
}

fn result(velocities: Vec<Vec3F64>) -> ImuInitResult {
    ImuInitResult {
        scale: 2.0f64.to_bits(),
        gravity_world: Vec3F64::new(0.0, 9.81, 0.0),
        velocities_world: velocities,
        bias: bias(7.0),
    }
}

#[test]
fn solutions_must_be_sane() {
    let accept = |scale: f64, is_mono: bool, bias: ImuBias| {
        let solution = ImuInitResult {
            scale: scale.to_bits(),
            bias,
            ..result(vec![Vec3F64::ZERO; 3])
        };
        accept_solution(solution, is_mono).map(|found| f64::from_bits(found.scale))
    };
    assert_eq!(accept(2.0, true, bias(1.0)), Some(2.0));
    assert_eq!(accept(0.1, true, bias(1.0)), Some(0.1));
    assert_eq!(accept(0.0999, true, bias(1.0)), None);
    assert_eq!(accept(-2.0, true, bias(1.0)), None);
    assert_eq!(accept(f64::INFINITY, true, bias(1.0)), None);
    assert_eq!(accept(f64::NAN, true, bias(1.0)), None);
    // The scale that was solved for does not count where it is known.
    assert_eq!(accept(f64::NAN, false, bias(1.0)), Some(1.0));
    assert_eq!(accept(2.0, true, bias(f64::INFINITY)), None);
    assert_eq!(accept(2.0, true, bias(f64::NAN)), None);
    let loud = ImuBias {
        gyro: Vec3F64::ZERO,
        accel: Vec3F64::new(0.0, f64::NAN, 0.0),
    };
    assert_eq!(accept(2.0, true, loud), None);
}

#[test]
fn initialization_solves_over_the_window() {
    let map = map_of(&[5, 3, 4, 1]);
    let factors = [
        factor(1, 3, 1.0),
        factor(3, 4, 0.5),
        factor(4, 5, 0.25),
        factor(3, 5, -1.0),
    ];
    let seeds = VelocitySeeds {
        current: |p: usize| Vec3F64::new(p as f64, 0.0, 0.0),
        mean: |e: &InitEdge<f64>, i: usize, j: usize| Vec3F64::new(e.preintegrated, i as f64, j as f64),
    };
    let solve = |again: bool, pose: Option<Pose3d>, min: usize, factors: &[ImuFactor<f64>], sane: bool| {
        initializer(min, 0.5)
            .try_initialize(
                &map,
                factors,
                pose,
                3,
                again,
                &|dt: &f64| dt.to_bits(),
                &seeds,
                Vec3F64::ZERO,
                &|problem: &InitProblem<f64>, _: &Pose3d| {
                    assert_eq!(problem.window, vec![1, 2, 0]);
                    assert!(problem.is_mono);
                    let edges: Vec<(f64, usize, usize)> =
                        problem.edges.iter().map(|e| (e.preintegrated, e.from, e.to)).collect();
                    assert_eq!(edges, vec![(0.5, 0, 1), (0.25, 1, 2)]);
                    Some(ImuInitResult {
                        scale: if sane { 2.0f64 } else { 0.05 }.to_bits(),
                        ..result(problem.velocities.clone())
                    })
                },
            )
            .map(|r| r.velocities_world)
    };
    let pose = Some(Pose3d::IDENTITY);
    let first = solve(false, pose, 3, &factors, true).unwrap();
    assert_eq!(
        first,
        vec![
            Vec3F64::new(0.5, 1.0, 2.0),
            Vec3F64::new(0.25, 2.0, 0.0),
            Vec3F64::new(0.25, 2.0, 0.0),
        ]
    );
    // Factors that are skipped leave no trace.
    let alone = [factor(3, 4, 0.5), factor(4, 5, 0.25)];
    assert_eq!(solve(false, pose, 3, &alone, true).unwrap(), first);
    let again = solve(true, pose, 3, &factors, true).unwrap();
    let xs: Vec<f64> = again.iter().map(|v| v.x).collect();
    assert_eq!(xs, vec![1.0, 2.0, 0.0]);
    assert!(solve(false, None, 3, &factors, true).is_none());
    assert!(solve(false, pose, 4, &factors, true).is_none());
    assert!(solve(false, pose, 3, &factors[..1], true).is_none());
    assert!(solve(false, pose, 3, &factors, false).is_none());
}

#[test]
fn applying_moves_the_map_and_the_state() {
    let mut map = map_of(&[5, 3, 4, 1]);
    map.push_map_point(MapPoint {
        position: Vec3F64::new(1.0, 0.0, 0.0),
        descriptor: [0; 32],
        keyframe_idx: 0,
        n_visible: 3,
        n_found: 2,
        culled: false,
    });
    let rest = InertialState {
        velocity_world: Vec3F64::ZERO,
        imu_bias: bias(0.0),
    };
    let mut inertial = vec![rest; 4];
    let mut state = SystemState::new(Pose3d::IDENTITY, Vec3F64::ZERO, 0.0);
    state.velocity = Some(Pose3d::IDENTITY);
    state.mode = SystemMode::ImuInit;
    let alignment = Alignment {
        pose: |pose: &Pose3d| Pose3d::new(pose.rotation, pose.translation * 2.0),
        point: |point: &Vec3F64| *point * 2.0,
        velocity: |velocity: &Vec3F64| *velocity * -1.0,
        gravity: Vec3F64::new(0.0, 9.81, 0.0),
    };
    let mut imu_bias = bias(0.0);
    let mut gravity = Vec3F64::ZERO;
    let init = result(vec![Vec3F64::new(1.0, 0.0, 0.0), Vec3F64::new(2.0, 0.0, 0.0)]);
    initializer(2, 0.5).apply_initialization(
        &mut map,
        &mut inertial,
        &mut state,
        &mut imu_bias,
        &mut gravity,
        &init,
        3,
        &alignment,
    );
    assert_eq!(imu_bias.gyro.x, 7.0);
    assert_eq!(gravity, Vec3F64::new(0.0, 9.81, 0.0));
    let xs: Vec<f64> = inertial.iter().map(|s| s.velocity_world.x).collect();
    assert_eq!(xs, vec![-1.0, -2.0, 0.0, 0.0]);
    let biases: Vec<f64> = inertial.iter().map(|s| s.imu_bias.gyro.x).collect();
    assert_eq!(biases, vec![7.0, 7.0, 0.0, 0.0]);
    assert_eq!(map.map_points()[0].position, Vec3F64::new(2.0, 0.0, 0.0));
    assert_eq!(map.map_points()[0].n_visible, 3);
    let poses: Vec<f64> = map
        .keyframes()
        .iter()
        .map(|kf| kf.frame.pose_world_to_cam.translation.x)
        .collect();
    assert_eq!(poses, vec![-10.0, -6.0, -8.0, -2.0]);
    assert_eq!(state.pose_world_to_cam.translation.x, -8.0);
    assert_eq!(state.velocity_world, Vec3F64::ZERO);
    assert!(state.velocity.is_none());
    assert!(state.imu_initialized);
    assert_eq!(state.mode, SystemMode::ImuInit);
}

fn edge(preintegrated: usize, from: usize, to: usize) -> InitEdge<usize> {
    InitEdge {
        preintegrated,
        from,
        to,
    }
}

#[test]
fn gyro_bias_takes_a_few_steps() {
    let edges = vec![edge(0, 0, 1), edge(1, 1, 2)];
    let x = |found: Option<Vec3F64>| found.map(|v| v.x);
    let along = |x: f64| Vec3F64::new(x, 0.0, 0.0);
    // Each step takes away half.
    let halve = |_: &Vec<InitEdge<usize>>, bias: &Vec3F64| Some(*bias * -0.5);
    assert_eq!(x(estimate_gyro_bias(&edges, along(4.0), &halve)), Some(0.5));
    assert_eq!(x(estimate_gyro_bias(&edges, along(4.1), &halve)), None);
    assert_eq!(x(estimate_gyro_bias(&edges, along(f64::NAN), &halve)), None);
    // A step that is short enough is the last.
    let start = 1.9e-8;
    assert_eq!(x(estimate_gyro_bias(&edges, along(start), &halve)), Some(start / 2.0));
    assert_eq!(x(estimate_gyro_bias(&vec![edge(0, 0, 1)], along(0.1), &halve)), None);
    let fail = |_: &Vec<InitEdge<usize>>, bias: &Vec3F64| {
        if bias.x < 0.1 {
            None
        } else {
            Some(*bias * -0.5)
        }
    };
    assert_eq!(x(estimate_gyro_bias(&edges, along(0.3), &fail)), None);
    assert_eq!(x(estimate_gyro_bias(&edges, along(0.8), &fail)), Some(0.1));
}

#[test]
fn linear_system_has_a_column_per_unknown() {
    let layout = LinearLayout {
        n_keyframes: 2,
        has_gravity_prior: false,
        solves_bias: false,
        solves_scale: true,
    };
    assert_eq!(
        (layout.gravity_base(), layout.bias_base(), layout.scale_col(), layout.total_cols()),
        (6, 9, 9, 10)
    );
    let full = LinearLayout {
        has_gravity_prior: true,
        solves_bias: true,
        ..layout
    };
    assert_eq!(
        (full.gravity_base(), full.bias_base(), full.scale_col(), full.total_cols()),
        (6, 8, 11, 12)
    );
    let terms = |to: i32, from: i32, ax: usize| LinearTerms {
        to,
        from,
        gravity: [30 + ax as i32, 40],
        bias: [50, 51, 52],
        scale: 60,
        rhs: 70 + ax as i32,
    };
    let run = |layout: &LinearLayout, edges: &Vec<InitEdge<usize>>, rows_ok: &dyn Fn(&Vec<Vec<i32>>, &Vec<i32>)| {
        let equations = LinearEquations {
            position: |_: &InitEdge<usize>, ax: usize| terms(0, 10, ax),
            velocity: |_: &InitEdge<usize>, ax: usize| terms(20, 10, ax),
            solve: |rows: &Vec<Vec<i32>>, rhs: &Vec<i32>| {
                rows_ok(rows, rhs);
                Some((0..layout.total_cols() as i32).collect())
            },
        };
        solve_linear(layout, edges, &equations, 0)
    };
    let edges = vec![edge(0, 0, 1), edge(1, 1, 0)];
    let solution = run(&layout, &edges, &|rows, rhs| {
        assert_eq!(rows.len(), 12);
        assert_eq!(rows[1], vec![0, 10, 0, 0, 0, 0, 0, 31, 0, 60]);
        assert_eq!(rows[5], vec![0, 0, 10, 0, 0, 20, 0, 0, 32, 0]);
        assert_eq!(rows[6], vec![0, 0, 0, 10, 0, 0, 30, 0, 0, 60]);
        assert_eq!(rhs[4], 71);
    })
    .unwrap();
    assert_eq!(solution.velocities, vec![[0, 1, 2], [3, 4, 5]]);
    assert_eq!(solution.gravity, vec![6, 7, 8]);
    assert_eq!(solution.accel_bias, None);
    assert_eq!(solution.scale, Some(9));
    let solution = run(&full, &edges, &|rows, _| {
        assert_eq!(rows[0], vec![10, 0, 0, 0, 0, 0, 30, 40, 50, 51, 52, 60]);
        assert_eq!(rows[3], vec![10, 0, 0, 20, 0, 0, 30, 40, 50, 51, 52, 0]);
    })
    .unwrap();
    assert_eq!(solution.gravity, vec![6, 7]);
    assert_eq!(solution.accel_bias, Some([8, 9, 10]));
    assert_eq!(solution.scale, Some(11));
    assert!(run(&layout, &vec![edge(0, 0, 1)], &|_, _| panic!("not asked")).is_none());
}

#[test]
fn a_known_scale_moves_to_the_right() {
    let layout = LinearLayout {
        n_keyframes: 2,
        has_gravity_prior: false,
        solves_bias: true,
        solves_scale: true,
    };
    let edges = vec![edge(0, 0, 1), edge(1, 1, 0), edge(2, 0, 1)];
    // Numbers of which the scale is one, and equations that they meet.
    let x: Vec<i64> = vec![3, -2, 5, 7, 1, -4, 2, 6, -1, 4, 8, -3, 1];
    let solve = |solves_scale: bool| {
        let terms = |is_velocity: bool, edge: &InitEdge<usize>, ax: usize| {
            let k = 10 * edge.preintegrated as i64 + ax as i64 + 1;
            let bias = [k + 3, k - 5, 2 * k];
            let scale = if is_velocity { 0 } else { 4 - 3 * k };
            let to = if is_velocity { 1 } else { 0 };
            let from = -k;
            let mut rhs = to * x[3 * edge.to + ax] + from * x[3 * edge.from + ax] + k * x[6 + ax];
            rhs += (0..3).map(|i| bias[i] * x[9 + i]).sum::<i64>() + scale * x[12];
            LinearTerms {
                to,
                from,
                gravity: [k, 0],
                bias,
                scale,
                rhs: if solves_scale { rhs } else { rhs - scale },
            }
        };
        let layout = LinearLayout {
            solves_scale,
            ..layout
        };
        let equations = LinearEquations {
            position: |edge: &InitEdge<usize>, ax: usize| terms(false, edge, ax),
            velocity: |edge: &InitEdge<usize>, ax: usize| terms(true, edge, ax),
            solve: |rows: &Vec<Vec<i64>>, rhs: &Vec<i64>| {
                // The same numbers meet either system.
                for (row, rhs) in rows.iter().zip(rhs) {
                    assert_eq!(row.len(), if solves_scale { 13 } else { 12 });
                    assert_eq!(row.iter().zip(&x).map(|(a, b)| a * b).sum::<i64>(), *rhs);
                }
                Some(x[..layout.total_cols()].to_vec())
            },
        };
        solve_linear(&layout, &edges, &equations, 0).unwrap()
    };
    let (unknown, known) = (solve(true), solve(false));
    assert_eq!(known.velocities, unknown.velocities);
    assert_eq!(known.gravity, unknown.gravity);
    assert_eq!(known.accel_bias, unknown.accel_bias);
    assert_eq!((unknown.scale, known.scale), (Some(1), None));
}
