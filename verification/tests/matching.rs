use kornia_3d::camera::PinholeCamera;
use kornia_3d::pose::Pose3d;
use kornia_algebra::{Mat3F64, Vec2F32, Vec3F64};
use kornia_image::ImageSize;
use kornia_slam::mapping::MapPoint;
use kornia_slam::odometry::estimation::matching::{
    grid_over, match_by_projection, match_map_to_frame, CellWindow, GridShape, KeypointGrid,
    ProjectionMatchConfig, Searcher,
};

fn make_grid(kps: &[[f32; 2]], w: f32, h: f32, cell: f32) -> KeypointGrid {
    let cells: Vec<(usize, usize)> = kps
        .iter()
        .map(|kp| ((kp[0] / cell) as usize, (kp[1] / cell) as usize))
        .collect();
    KeypointGrid::new(&cells, (w / cell).ceil() as usize, (h / cell).ceil() as usize)
}

fn window(x: f32, y: f32, radius: f32, w: f32, h: f32, cell: f32) -> CellWindow {
    CellWindow {
        col_min: ((x - radius).max(0.0) / cell) as usize,
        col_max: ((x + radius).min(w - 1.0) / cell) as usize,
        row_min: ((y - radius).max(0.0) / cell) as usize,
        row_max: ((y + radius).min(h - 1.0) / cell) as usize,
    }
}

fn query(grid: &KeypointGrid, kps: &[[f32; 2]], x: f32, y: f32, radius: f32, cell: f32) -> Vec<usize> {
    let keypoints: Vec<Vec2F32> = kps.iter().map(|p| Vec2F32::from_array(*p)).collect();
    grid.query_radius(
        window(x, y, radius, 640.0, 480.0, cell),
        &Vec2F32::new(x, y),
        &Vec2F32::new(radius, 0.0),
        &keypoints,
    )
}

fn empty_grid() {
    let grid = make_grid(&[], 640.0, 480.0, 64.0);
    let result = query(&grid, &[], 320.0, 240.0, 50.0, 64.0);
    assert!(result.is_empty());
}

fn single_point_found() {
    let kps = [[100.0, 100.0]];
    let grid = make_grid(&kps, 640.0, 480.0, 64.0);

    let result = query(&grid, &kps, 100.0, 100.0, 10.0, 64.0);
    assert_eq!(result, vec![0]);

    let result = query(&grid, &kps, 500.0, 400.0, 10.0, 64.0);
    assert!(result.is_empty());
}

fn radius_boundary() {
    let kps = [[50.0, 50.0], [60.0, 50.0], [100.0, 50.0]];
    let grid = make_grid(&kps, 640.0, 480.0, 32.0);

    let mut result = query(&grid, &kps, 55.0, 50.0, 15.0, 32.0);
    result.sort();
    assert_eq!(result, vec![0, 1]);
}

fn corner_clamping() {
    let kps = [[0.0, 0.0], [639.0, 479.0]];
    let grid = make_grid(&kps, 640.0, 480.0, 64.0);

    let result = query(&grid, &kps, 0.0, 0.0, 5.0, 64.0);
    assert_eq!(result, vec![0]);

    let result = query(&grid, &kps, 639.0, 479.0, 5.0, 64.0);
    assert_eq!(result, vec![1]);
}

fn multiple_points_per_cell() {
    let kps = [[10.0, 10.0], [12.0, 11.0], [15.0, 13.0]];
    let grid = make_grid(&kps, 640.0, 480.0, 64.0);

    let mut result = query(&grid, &kps, 12.0, 12.0, 20.0, 64.0);
    result.sort();
    assert_eq!(result, vec![0, 1, 2]);
}

#[test]
fn matching_test_empty_grid() {
    empty_grid();
}

#[test]
fn map_projection_test_empty_grid() {
    empty_grid();
}

#[test]
fn matching_test_single_point_found() {
    single_point_found();
}

#[test]
fn map_projection_test_single_point_found() {
    single_point_found();
}

#[test]
fn matching_test_radius_boundary() {
    radius_boundary();
}

#[test]
fn map_projection_test_radius_boundary() {
    radius_boundary();
}

#[test]
fn matching_test_corner_clamping() {
    corner_clamping();
}

#[test]
fn map_projection_test_corner_clamping() {
    corner_clamping();
}

#[test]
fn matching_test_multiple_points_per_cell() {
    multiple_points_per_cell();
}

#[test]
fn map_projection_test_multiple_points_per_cell() {
    multiple_points_per_cell();
}

fn test_camera() -> PinholeCamera {
    PinholeCamera {
        fx: 200.0,
        fy: 200.0,
        cx: 320.0,
        cy: 240.0,
        k1: 0.0,
        k2: 0.0,
        p1: 0.0,
        p2: 0.0,
    }
}

fn map_point(position: Vec3F64, descriptor: [u8; 32]) -> MapPoint {
    MapPoint {
        position,
        descriptor,
        keyframe_idx: 0,
        n_visible: 0,
        n_found: 0,
        culled: false,
    }
}

fn match_with(
    map_points: &[MapPoint],
    keypoints_xy: &[[f32; 2]],
    descriptors: &[[u8; 32]],
    base_radius: f32,
    widen: bool,
) -> Vec<(usize, usize)> {
    match_beyond(None, map_points, keypoints_xy, descriptors, base_radius, widen)
}

fn match_beyond(
    nearest: Option<Vec3F64>,
    map_points: &[MapPoint],
    keypoints_xy: &[[f32; 2]],
    descriptors: &[[u8; 32]],
    base_radius: f32,
    widen: bool,
) -> Vec<(usize, usize)> {
    let camera = test_camera();
    let keypoints: Vec<Vec2F32> = keypoints_xy.iter().map(|p| Vec2F32::from_array(*p)).collect();
    let pose = Pose3d::new(Mat3F64::IDENTITY, Vec3F64::ZERO);
    let size = ImageSize {
        width: 640,
        height: 480,
    };
    let searcher = Searcher {
        cell: |kp: &Vec2F32| ((kp.x / 64.0) as usize, (kp.y / 64.0) as usize),
        window: |pixel: &Vec2F32, radius: &Vec2F32| {
            window(pixel.x, pixel.y, radius.x, 640.0, 480.0, 64.0)
        },
    };
    let shape = GridShape {
        n_cols: 10,
        n_rows: 8,
    };
    let grid = grid_over(&searcher.cell, shape, &keypoints);
    let config = ProjectionMatchConfig {
        nearest,
        search_radius: Vec2F32::new(base_radius, 0.0),
        max_hamming: 50,
    };
    if widen {
        match_map_to_frame(
            &searcher,
            &camera,
            size,
            map_points,
            &keypoints,
            descriptors,
            &grid,
            &pose,
            config,
        )
    } else {
        match_by_projection(
            &searcher,
            &camera,
            size,
            map_points,
            &keypoints,
            descriptors,
            &grid,
            &pose,
            config,
        )
    }
}

fn match_by_projection_simple() {
    let desc_a = [0u8; 32];
    let map_points = vec![map_point(Vec3F64::new(0.0, 0.0, 5.0), desc_a)];
    let keypoints_xy = vec![[320.0f32, 240.0], [100.0, 100.0]];
    let descriptors = vec![desc_a, [0xFF; 32]];

    let matches = match_with(&map_points, &keypoints_xy, &descriptors, 15.0, false);

    assert_eq!(matches.len(), 1);
    assert_eq!(matches[0], (0, 0));
}

fn behind_camera_rejected() {
    let map_points = vec![map_point(Vec3F64::new(0.0, 0.0, -5.0), [0u8; 32])];
    let keypoints_xy = vec![[320.0f32, 240.0]];
    let descriptors = vec![[0u8; 32]];

    let matches = match_with(&map_points, &keypoints_xy, &descriptors, 15.0, false);

    assert!(matches.is_empty());
}

fn high_hamming_rejected() {
    let map_points = vec![map_point(Vec3F64::new(0.0, 0.0, 5.0), [0u8; 32])];
    let keypoints_xy = vec![[320.0f32, 240.0]];
    let descriptors = vec![[0xFF; 32]];

    let matches = match_with(&map_points, &keypoints_xy, &descriptors, 15.0, false);

    assert!(matches.is_empty());
}

#[test]
fn matching_test_match_by_projection_simple() {
    match_by_projection_simple();
}

#[test]
fn map_projection_test_match_by_projection_simple() {
    match_by_projection_simple();
}

#[test]
fn matching_test_behind_camera_rejected() {
    behind_camera_rejected();
}

#[test]
fn map_projection_test_behind_camera_rejected() {
    behind_camera_rejected();
}

#[test]
fn matching_test_high_hamming_rejected() {
    high_hamming_rejected();
}

#[test]
fn map_projection_test_high_hamming_rejected() {
    high_hamming_rejected();
}

#[test]
fn hamming_threshold_is_inclusive() {
    // Six bytes of ones and two more bits: fifty bits.
    let mut near = [0u8; 32];
    near[..6].fill(0xFF);
    near[6] = 0b11;
    let mut far = near;
    far[7] = 1;
    let map_points = vec![map_point(Vec3F64::new(0.0, 0.0, 5.0), [0u8; 32])];
    let keypoints_xy = vec![[320.0f32, 240.0]];
    assert_eq!(match_with(&map_points, &keypoints_xy, &[near], 15.0, false), vec![(0, 0)]);
    assert!(match_with(&map_points, &keypoints_xy, &[far], 15.0, false).is_empty());
}

#[test]
fn each_keypoint_is_matched_once() {
    let mut one = [0u8; 32];
    one[0] = 1;
    let mut culled = map_point(Vec3F64::new(0.0, 0.0, 5.0), [0u8; 32]);
    culled.culled = true;
    let map_points = vec![
        culled,
        map_point(Vec3F64::new(0.0, 0.0, 5.0), [0u8; 32]),
        map_point(Vec3F64::new(0.0, 0.0, 5.0), [0u8; 32]),
        map_point(Vec3F64::new(0.0, 0.0, 5.0), [0u8; 32]),
    ];
    let keypoints_xy = vec![[321.0f32, 240.0], [320.0, 240.0]];
    let matches = match_with(&map_points, &keypoints_xy, &[one, [0u8; 32]], 15.0, false);
    assert_eq!(matches, vec![(1, 1), (2, 0)]);
}

#[test]
fn too_few_matches_widen_the_search() {
    let map_points = vec![map_point(Vec3F64::new(0.0, 0.0, 5.0), [0u8; 32])];
    let keypoints_xy = vec![[345.0f32, 240.0]];
    let descriptors = vec![[0u8; 32]];
    assert!(match_with(&map_points, &keypoints_xy, &descriptors, 15.0, false).is_empty());
    assert_eq!(
        match_with(&map_points, &keypoints_xy, &descriptors, 15.0, true),
        vec![(0, 0)]
    );
}

#[test]
fn keypoints_outside_the_grid_are_in_its_border_cells() {
    let grid = KeypointGrid::new(&[(12, 0), (9, 9)], 10, 8);
    let all = CellWindow {
        col_min: 9,
        col_max: 100,
        row_min: 0,
        row_max: 100,
    };
    let keypoints = [Vec2F32::new(800.0, 10.0), Vec2F32::new(620.0, 620.0)];
    let query = |window: CellWindow, x: f32, y: f32, radius: f32| {
        let pixel = Vec2F32::new(x, y);
        grid.query_radius(window, &pixel, &Vec2F32::new(radius, 0.0), &keypoints)
    };
    assert_eq!(query(all, 700.0, 300.0, 900.0), vec![0, 1]);
    assert_eq!(query(all, 620.0, 630.0, 10.0), vec![1]);
    assert!(query(all, 620.0, 630.0, f32::NAN).is_empty());
    let left = CellWindow { col_max: 8, col_min: 0, ..all };
    assert!(query(left, 700.0, 300.0, 900.0).is_empty());
}

#[test]
fn a_query_beyond_the_border_finds_what_is_near() {
    // The keypoint is in the last column, the pixel in none.
    let kps = [[700.0f32, 100.0], [100.0, 100.0]];
    let grid = make_grid(&kps, 640.0, 480.0, 64.0);
    assert_eq!(query(&grid, &kps, 700.0, 100.0, 5.0, 64.0), vec![0]);
    assert_eq!(query(&grid, &kps, 704.0, 103.0, 5.0, 64.0), vec![0]);
    assert!(query(&grid, &kps, 704.0, 104.0, 5.0, 64.0).is_empty());
}

#[test]
fn points_up_to_the_least_depth_are_rejected() {
    let map_points = vec![map_point(Vec3F64::new(0.0, 0.0, 5.0), [0u8; 32])];
    let keypoints_xy = vec![[320.0f32, 240.0]];
    let descriptors = vec![[0u8; 32]];
    let count = |z: f64| {
        let nearest = Some(Vec3F64::new(9.0, 9.0, z));
        match_beyond(nearest, &map_points, &keypoints_xy, &descriptors, 15.0, false).len()
    };
    assert_eq!(count(4.9), 1);
    assert_eq!(count(5.0), 0);
    assert_eq!(count(-1.0), 1);
}
