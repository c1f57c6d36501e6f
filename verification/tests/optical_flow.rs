use kornia_algebra::Vec2F32;
use kornia_image::{Image, ImageSize};
use kornia_imgproc::optical_flow_pyr_lk::{BorderMode, PyrLKError, PyrLKParams, TermCriteria};
use kornia_slam::estimation::optical_flow::{
    klt_correspondences, snap_survivors, FlowLimits, FlowPoint, TrackState,
};
use kornia_slam::gray_image::GrayImage;

fn at(x: f32, y: f32) -> Vec2F32 {
    Vec2F32::new(x, y)
}

#[test]
fn new_track_gets_unique_ids() {
    let mut state = TrackState::new();
    let a = state.new_track(at(1.0, 2.0));
    let b = state.new_track(at(3.0, 4.0));
    assert_ne!(a.track_id, b.track_id);
    assert_eq!(a.map_point_idx, None);
    assert_eq!(a.age, 1);
}

#[test]
fn pixels_are_positional_with_tracks() {
    let mut state = TrackState::new();
    let t0 = state.new_track(at(1.0, 2.0));
    let t1 = state.new_track(at(3.0, 4.0));
    state.set_tracks(vec![t0, t1]);
    assert_eq!(state.pixels(), vec![at(1.0, 2.0), at(3.0, 4.0)]);
    assert_eq!(state.len(), 2);
    assert!(!state.is_empty());
}

/// Builds a black image with a white square whose corner is trackable.
fn square_image(origin: [usize; 2]) -> Image<u8, 1> {
    const SIZE: usize = 200;
    let mut data = vec![0u8; SIZE * SIZE];
    for y in origin[1]..(origin[1] + 40).min(SIZE) {
        for x in origin[0]..(origin[0] + 40).min(SIZE) {
            data[y * SIZE + x] = 255;
        }
    }
    Image::new(
        ImageSize {
            width: SIZE,
            height: SIZE,
        },
        data,
    )
    .unwrap()
}

fn gray(image: &Image<u8, 1>) -> GrayImage<'_> {
    GrayImage {
        width: image.width(),
        height: image.height(),
        pixels: image.as_slice(),
    }
}

fn params() -> PyrLKParams {
    PyrLKParams {
        win_size: 21,
        max_level: 3,
        max_iter: 30,
        epsilon: 0.01,
        min_eigen_threshold: 1e-4,
        use_initial_flow: false,
        term_criteria: TermCriteria::Both,
        border_mode: BorderMode::Clamp,
    }
}

fn limits() -> FlowLimits {
    FlowLimits::new(at(10.0, 10.0))
}

#[test]
fn track_follows_a_known_shift() {
    let prev_img = square_image([90, 90]);
    let next_img = square_image([93, 92]); // shifted by (+3, +2)

    let mut state = TrackState::new();
    // Seed the square's top-left corner, which has gradients on both axes.
    let t = state.new_track(at(90.0, 90.0));
    state.set_tracks(vec![t]);

    let survivors = state
        .track(&gray(&prev_img), &gray(&next_img), &params(), &limits())
        .expect("KLT should succeed on a clean synthetic shift");

    assert_eq!(survivors.len(), 1, "the corner should track successfully");
    let got = survivors[0].pixel;
    assert!(
        (got.x - 93.0).abs() < 1.5 && (got.y - 92.0).abs() < 1.5,
        "expected pixel near (93, 92), got {got:?}"
    );
    assert_eq!(survivors[0].track_id, t.track_id);
    assert_eq!(survivors[0].age, 2);
}

#[test]
fn refresh_from_matches_preserves_identity_for_known_map_points() {
    let mut state = TrackState::new();
    let mut t0 = state.new_track(at(1.0, 2.0));
    t0.map_point_idx = Some(42);
    state.set_tracks(vec![t0]);

    // Map point 42 persists while map point 7 appears for the first time.
    let keypoints = [at(5.0, 6.0), at(10.0, 11.0)];
    state.refresh_from_matches(&[(42, 0), (7, 1)], &keypoints);

    let tracks = state.tracks();
    assert_eq!(tracks.len(), 2);
    let mp42 = tracks.iter().find(|t| t.map_point_idx == Some(42)).unwrap();
    assert_eq!(mp42.track_id, t0.track_id, "identity must carry forward");
    assert_eq!(mp42.age, 2);
    assert_eq!(mp42.pixel, at(5.0, 6.0));

    let mp7 = tracks.iter().find(|t| t.map_point_idx == Some(7)).unwrap();
    assert_ne!(mp7.track_id, t0.track_id, "new map point gets a fresh id");
    assert_eq!(mp7.age, 1);
}

#[test]
fn identities_can_be_issued() {
    let mut state = TrackState::new();
    assert!(state.can_issue(0));
    assert!(state.can_issue(usize::MAX));
    state.new_track(at(1.0, 2.0));
    assert!(state.can_issue(usize::MAX - 1));
    assert!(!state.can_issue(usize::MAX));
}

#[test]
fn refresh_uses_a_track_once_and_skips_missing_keypoints() {
    let mut state = TrackState::new();
    let mut first = state.new_track(at(1.0, 1.0));
    first.map_point_idx = Some(5);
    let mut second = state.new_track(at(2.0, 2.0));
    second.map_point_idx = Some(5);
    let loose = state.new_track(at(3.0, 3.0));
    state.set_tracks(vec![first, second, loose]);
    let keypoints = [at(0.0, 0.0), at(9.0, 9.0)];
    state.refresh_from_matches(&[(5, 7), (5, 0), (5, 1)], &keypoints);
    let ids: Vec<(u64, u32)> = state.tracks().iter().map(|t| (t.track_id, t.age)).collect();
    assert_eq!(ids, vec![(second.track_id, 2), (3, 1)]);
}

fn said(status: u8, x: f32, y: f32) -> FlowPoint {
    FlowPoint {
        status,
        pixel: at(x, y),
        residual: 0.0f32.to_bits(),
    }
}

#[test]
fn points_are_accepted_within_the_limits() {
    let mut state = TrackState::new();
    let t = state.new_track(at(50.0, 50.0));
    state.set_tracks(vec![t]);
    let accepts = |point: FlowPoint| {
        let kept = state.keep_survivors(&vec![point], 200, 100, &limits());
        kept.len() == 1
    };
    assert!(accepts(said(1, 50.0, 50.0)));
    assert!(!accepts(said(0, 50.0, 50.0)));
    let residual = |r: f32| FlowPoint {
        residual: r.to_bits(),
        ..said(1, 50.0, 50.0)
    };
    assert!(accepts(residual(20.0)));
    assert!(!accepts(residual(20.01)));
    assert!(accepts(residual(f32::NAN)));
    // The border of an image of two hundred columns and a hundred rows.
    assert!(accepts(said(1, 10.0, 10.0)));
    assert!(!accepts(said(1, 9.9, 50.0)));
    assert!(!accepts(said(1, 50.0, 9.9)));
    assert!(accepts(said(1, 50.0, 90.0)));
    assert!(!accepts(said(1, 50.0, 90.1)));
    // Sixty pixels from where it was.
    assert!(accepts(said(1, 110.0, 50.0)));
    assert!(!accepts(said(1, 110.1, 50.0)));
    assert!(accepts(said(1, 98.0, 86.0)));
    assert!(!accepts(said(1, 98.0, 86.1)));
    let far = FlowLimits {
        max_movement: 500.0f32.to_bits(),
        ..limits()
    };
    let kept = |x: f32| state.keep_survivors(&vec![said(1, x, 50.0)], 200, 100, &far).len();
    assert_eq!((kept(190.0), kept(190.1)), (1, 0));
}

#[test]
fn lost_points_and_errors() {
    let image = square_image([90, 90]);
    let empty = TrackState::new();
    let nothing = GrayImage {
        width: 0,
        height: 0,
        pixels: &[],
    };
    assert_eq!(empty.track(&nothing, &nothing, &params(), &limits()).unwrap().len(), 0);

    let mut state = TrackState::new();
    let t0 = state.new_track(at(1.0, 1.0));
    let t1 = state.new_track(at(2.0, 2.0));
    let t2 = state.new_track(at(3.0, 3.0));
    state.set_tracks(vec![t0, t1, t2]);
    let bad = PyrLKParams { win_size: 5, ..params() };
    let failed = state.track(&gray(&image), &gray(&image), &bad, &limits());
    assert!(matches!(failed, Err(PyrLKError::InvalidWindowSize(5))));
    let half = GrayImage {
        height: 100,
        pixels: &image.as_slice()[..200 * 100],
        ..gray(&image)
    };
    let failed = state.track(&gray(&image), &half, &params(), &limits());
    assert!(matches!(failed, Err(PyrLKError::ImageSizeMismatch { .. })));

    let points = vec![said(0, 30.0, 30.0), said(1, 5.0, 5.0), said(1, 30.0, 30.0)];
    let survivors = state.keep_survivors(&points, 200, 200, &limits());
    assert_eq!(survivors.len(), 1);
    assert_eq!(survivors[0].track_id, t2.track_id);
    assert_eq!(survivors[0].pixel, at(30.0, 30.0));
    assert_eq!(survivors[0].age, 2);
}

#[test]
fn survivors_snap_to_the_nearest_keypoint() {
    let radius = at(2.0, 0.0);
    let mut state = TrackState::new();
    let mut near = state.new_track(at(10.0, 10.0));
    near.map_point_idx = Some(8);
    let mut far = state.new_track(at(50.0, 50.0));
    far.map_point_idx = Some(9);
    let unlinked = state.new_track(at(10.0, 10.0));
    let keypoints = [at(12.0, 10.0), at(11.0, 10.0), at(9.0, 10.0), at(70.0, 50.0)];
    assert_eq!(
        snap_survivors(&[near, far, unlinked], &keypoints, &radius),
        vec![(8, 1)]
    );
    assert_eq!(snap_survivors(&[near], &keypoints[..1], &radius), vec![(8, 0)]);
    assert!(snap_survivors(&[near], &keypoints[..1], &at(1.9, 0.0)).is_empty());
    assert!(snap_survivors(&[near], &[at(f32::NAN, 10.0)], &radius).is_empty());
    let image = square_image([90, 90]);
    let shifted = square_image([93, 92]);
    let mut corner = state.new_track(at(90.0, 90.0));
    corner.map_point_idx = Some(4);
    let mut flat = state.new_track(at(20.0, 20.0));
    flat.map_point_idx = Some(5);
    state.set_tracks(vec![corner, flat]);
    let keypoints = [at(20.0, 20.0), at(93.0, 92.0), at(90.0, 90.0)];
    let snap = |params: &PyrLKParams| {
        klt_correspondences(
            &state,
            &gray(&image),
            &gray(&shifted),
            &keypoints,
            params,
            &limits(),
            &radius,
        )
    };
    assert_eq!(snap(&params()).unwrap(), vec![(4, 1)]);
    assert!(snap(&PyrLKParams { max_level: 99, ..params() }).is_err());
}
