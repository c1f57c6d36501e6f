use kornia_3d::pose::Pose3d;
use kornia_algebra::{Mat3F64, Vec2F32, Vec3F64};
use kornia_image::ImageSize;
use kornia_imgproc::features::OrbFeatures;
use kornia_slam::frame::Frame;
use kornia_slam::odometry::{OdometryMode, OdometryState};
use kornia_slam::system::{SystemMode, SystemState, TrackingLossRecoveryPolicy};

fn empty_frame(stereo: Vec<Option<Vec2F32>>) -> Frame {
    Frame {
        idx: 0,
        features: OrbFeatures {
            keypoints_xy: Vec::new(),
            orientations: Vec::new(),
            descriptors: Vec::new(),
            octaves: Vec::new(),
        },
        pose_world_to_cam: Pose3d::IDENTITY,
        image_size: ImageSize {
            width: 1,
            height: 1,
        },
        keypoint_colors: Vec::new(),
        stereo,
    }
}

#[test]
fn monocular_frame_reports_no_stereo() {
    let frame = empty_frame(Vec::new());
    assert!(!frame.is_stereo());
    assert_eq!(frame.stereo_depth(0), None);
}

#[test]
fn stereo_frame_reports_valid_depth() {
    let frame = empty_frame(vec![Some(Vec2F32::new(10.0, 2.5)), None]);
    assert!(frame.is_stereo());
    assert_eq!(frame.stereo_depth(0).map(|found| found.y), Some(2.5));
    assert_eq!(frame.stereo_depth(1), None);
    assert_eq!(frame.stereo_depth(2), None);
}

#[test]
fn grace_period_depends_on_the_imu() {
    let policy = TrackingLossRecoveryPolicy {
        min_keyframes_for_grace: 10,
        timeout_imu_sec: 1.0,
        timeout_visual_sec: 0.5,
        min_imu_confidence_sec: 2.0,
    };
    assert_eq!(policy.grace_period_sec(true), 1.0);
    assert_eq!(policy.grace_period_sec(false), 0.5);
}

#[test]
fn reset_keeps_the_pose_and_the_time() {
    let mut state = SystemState::new(Pose3d::IDENTITY, Vec3F64::ZERO, 0.0);
    assert_eq!(state.mode, SystemMode::Bootstrap);
    let pose = Pose3d::new(Mat3F64::IDENTITY, Vec3F64::new(1.0, 2.0, 3.0));
    state.pose_world_to_cam = pose;
    state.velocity = Some(pose);
    state.velocity_world = Vec3F64::new(1.0, 0.0, 0.0);
    state.last_frame_timestamp_sec = 7.5;
    state.imu_initialized = true;
    state.imu_init_timestamp_sec = Some(7.0);
    state.current_keyframe_idx = Some(1);
    state.last_keyframe_idx = Some(2);
    state.lost_since_sec = Some(7.25);
    state.bootstrap_frame = Some(empty_frame(Vec::new()));
    state.mode = SystemMode::Tracking;

    state.reset(Vec3F64::ZERO);

    assert_eq!(state.pose_world_to_cam.translation, pose.translation);
    assert_eq!(state.last_frame_timestamp_sec, 7.5);
    assert_eq!(state.velocity_world, Vec3F64::ZERO);
    assert!(state.velocity.is_none());
    assert!(!state.imu_initialized);
    assert_eq!(state.imu_init_timestamp_sec, None);
    assert_eq!(state.current_keyframe_idx, None);
    assert_eq!(state.last_keyframe_idx, None);
    assert_eq!(state.lost_since_sec, None);
    assert!(state.bootstrap_frame.is_none());
    assert_eq!(state.mode, SystemMode::Bootstrap);
}

#[test]
fn odometry_reset_keeps_the_pose() {
    let pose = Pose3d::new(Mat3F64::IDENTITY, Vec3F64::new(1.0, 2.0, 3.0));
    let mut state = OdometryState::new(Pose3d::IDENTITY);
    state.pose_world_to_cam = pose;
    state.consecutive_failures = 4;
    state.current_keyframe_idx = Some(3);
    state.state = OdometryMode::Tracking;
    state.reset();
    assert_eq!(state.pose_world_to_cam.translation, pose.translation);
    assert_eq!(state.consecutive_failures, 0);
    assert_eq!(state.current_keyframe_idx, None);
    assert_eq!(state.state, OdometryMode::Bootstrap);
}
