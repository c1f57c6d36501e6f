//! Odometry: the state carried from frame to frame, bootstrap, and pose estimation.

pub mod bootstrap;
pub mod estimation;

use crate::frame::Frame;
use kornia_3d::pose::Pose3d;
use vstd::prelude::*;

pub use estimation::Estimator;

verus! {

/// Status of an odometry step.
#[derive(Debug, Clone, Copy, PartialEq, Eq)]
pub enum OdometryStatus {
    /// Frame tracked successfully.
    FrameTracked,
    /// Frame processed but rejected (includes bootstrap frames before the map is ready).
    Skipped,
    /// Keyframe accepted and pose chained.
    KeyframeAccepted,
}

/// Result of processing one frame.
#[derive(Debug)]
pub struct OdometryResult {
    /// Current accumulated world-to-camera pose.
    pub pose_world_to_cam: Pose3d,
    /// Status for this frame.
    pub status: OdometryStatus,
}

/// Odometry mode.
#[derive(Debug, Clone, Copy, PartialEq, Eq)]
pub enum OdometryMode {
    /// Bootstrap from two-view geometry before any map exists.
    Bootstrap,
    /// Track against the existing map and insert keyframes when needed.
    Tracking,
}

/// Mutable odometry state carried across frames.
#[derive(Debug)]
pub struct OdometryState {
    pub pose_world_to_cam: Pose3d,
    pub velocity: Option<Pose3d>,
    pub current_keyframe_idx: Option<usize>,
    pub last_keyframe_idx: Option<usize>,
    pub consecutive_failures: usize,
    pub bootstrap_frame: Option<Frame>,
    pub state: OdometryMode,
}

/// The state of odometry without a map, at a pose.
pub open spec fn unmapped_odometry(pose: Pose3d) -> OdometryState {
    OdometryState {
        pose_world_to_cam: pose,
        velocity: None,
        current_keyframe_idx: None,
        last_keyframe_idx: None,
        consecutive_failures: 0,
        bootstrap_frame: None,
        state: OdometryMode::Bootstrap,
    }
}

impl OdometryState {
    /// The state to start from, at a pose.
    pub fn new(origin: Pose3d) -> (state: OdometryState)
        ensures
            state == unmapped_odometry(origin),
    {
        OdometryState {
            pose_world_to_cam: origin,
            velocity: None,
            current_keyframe_idx: None,
            last_keyframe_idx: None,
            consecutive_failures: 0,
            bootstrap_frame: None,
            state: OdometryMode::Bootstrap,
        }
    }

    /// Forgets the map; the pose stays.
    pub fn reset(&mut self)
        ensures
            *final(self) == unmapped_odometry(old(self).pose_world_to_cam),
    {
        self.state = OdometryMode::Bootstrap;
        self.current_keyframe_idx = None;
        self.last_keyframe_idx = None;
        self.velocity = None;
        self.consecutive_failures = 0;
        self.bootstrap_frame = None;
    }
}

/// Odometry without a map is at the pose that it is given; it knows no keyframe and no step
/// between frames, has not failed, and waits for a first frame.
pub proof fn lemma_unmapped_odometry(pose: Pose3d)
    ensures
        unmapped_odometry(pose).pose_world_to_cam == pose,
        unmapped_odometry(pose).velocity is None,
        unmapped_odometry(pose).current_keyframe_idx is None,
        unmapped_odometry(pose).last_keyframe_idx is None,
        unmapped_odometry(pose).consecutive_failures == 0,
        unmapped_odometry(pose).bootstrap_frame is None,
        unmapped_odometry(pose).state == OdometryMode::Bootstrap,
{
}

} // verus!
