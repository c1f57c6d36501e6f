//! System runtime state, mode transitions, and tracking results.

use crate::frame::Frame;
use kornia_3d::pose::Pose3d;
use kornia_algebra::Vec3F64;
use vstd::prelude::*;

verus! {

/// Fewest inliers with which a weakly tracked frame becomes a keyframe.
pub const MIN_KEYFRAME_INLIERS: usize = 15;

/// Keyframe insertion heuristics.
#[derive(Debug, Clone, Copy, PartialEq, Eq)]
pub struct KeyframePolicy {
    /// Minimum frame gap before allowing keyframe insertion.
    pub min_frames_between: usize,
    /// Force a keyframe if this frame gap is reached.
    pub max_frames_between: usize,
}

impl Default for KeyframePolicy {
    fn default() -> (policy: KeyframePolicy)
        ensures
            policy.min_frames_between == 3,
            policy.max_frames_between == 8,
    {
        KeyframePolicy { min_frames_between: 3, max_frames_between: 8 }
    }
}

/// Frames since the last keyframe.
pub open spec fn frame_gap(curr_idx: usize, last_idx: usize) -> nat {
    if curr_idx > last_idx {
        (curr_idx - last_idx) as nat
    } else {
        0
    }
}

/// `insert` is the decision on a keyframe. `weak_threshold` gives the number of inliers
/// below which tracking is weak, for a reference keyframe with so many map points.
pub open spec fn is_insert_decision<W: Fn(usize) -> usize>(
    policy: KeyframePolicy,
    curr_idx: usize,
    last_keyframe_idx: Option<usize>,
    inliers: usize,
    n_ref_map_points: usize,
    weak_threshold: W,
    insert: bool,
) -> bool {
    match last_keyframe_idx {
        None => insert,
        Some(last_idx) => {
            let gap = frame_gap(curr_idx, last_idx);
            if gap < policy.min_frames_between {
                !insert
            } else if gap >= policy.max_frames_between || n_ref_map_points == 0 {
                insert
            } else {
                exists|weak: usize|
                    {
                        &&& #[trigger] call_ensures(weak_threshold, (n_ref_map_points,), weak)
                        &&& insert == (MIN_KEYFRAME_INLIERS <= inliers && inliers < weak)
                    }
            }
        },
    }
}

impl KeyframePolicy {
    /// Decide whether a new keyframe should be inserted.
    pub fn should_insert<W: Fn(usize) -> usize>(
        &self,
        curr_idx: usize,
        last_keyframe_idx: Option<usize>,
        tracked_inliers: usize,
        n_ref_map_points: usize,
        weak_threshold: W,
    ) -> (insert: bool)
        requires
            call_requires(weak_threshold, (n_ref_map_points,)),
        ensures
            is_insert_decision(
                *self,
                curr_idx,
                last_keyframe_idx,
                tracked_inliers,
                n_ref_map_points,
                weak_threshold,
                insert,
            ),
    {
        let last_idx: usize = match last_keyframe_idx {
            None => {
                return true;
            },
            Some(idx) => idx,
        };
        let gap: usize = if curr_idx > last_idx {
            curr_idx - last_idx
        } else {
            0
        };
        if gap < self.min_frames_between {
            return false;
        }
        if gap >= self.max_frames_between || n_ref_map_points == 0 {
            return true;
        }
        let weak: usize = weak_threshold(n_ref_map_points);
        tracked_inliers >= MIN_KEYFRAME_INLIERS && tracked_inliers < weak
    }
}

/// Recently-lost grace period policy, bridging brief interruptions (motion blur, a few
/// dropped or occluded frames) without throwing the map away.
///
/// A map that is too young, or an inertial state that has not settled yet, gets no grace.
/// `T` is the type of durations in seconds.
#[derive(Debug)]
pub struct TrackingLossRecoveryPolicy<T> {
    /// Minimum keyframe count before any grace period is granted.
    pub min_keyframes_for_grace: usize,
    /// Grace period once the IMU has been initialized for at least
    /// `min_imu_confidence_sec`.
    pub timeout_imu_sec: T,
    /// Grace period otherwise (no IMU, or too recently initialized).
    pub timeout_visual_sec: T,
    /// How long the IMU must have been initialized before `timeout_imu_sec`
    /// applies instead of `timeout_visual_sec`.
    pub min_imu_confidence_sec: T,
}

impl<T: Copy> Copy for TrackingLossRecoveryPolicy<T> {

}

impl<T: Copy> Clone for TrackingLossRecoveryPolicy<T> {
    fn clone(&self) -> (copy: TrackingLossRecoveryPolicy<T>)
        ensures
            copy == *self,
    {
        *self
    }
}

impl<T: Copy> TrackingLossRecoveryPolicy<T> {
    /// Grace period, in seconds, to allow before giving up and resetting.
    pub fn grace_period_sec(&self, imu_confident: bool) -> (period: T)
        ensures
            period == (if imu_confident {
                self.timeout_imu_sec
            } else {
                self.timeout_visual_sec
            }),
    {
        if imu_confident {
            self.timeout_imu_sec
        } else {
            self.timeout_visual_sec
        }
    }
}

/// Status of processing one frame.
#[derive(Debug, Clone, Copy, PartialEq, Eq)]
pub enum TrackingStatus {
    /// Frame tracked successfully.
    FrameTracked,
    /// Frame processed but rejected (includes bootstrap frames before the map is ready).
    Skipped,
    /// Keyframe accepted and pose chained.
    KeyframeAccepted,
}

/// Result of processing one frame.
#[derive(Debug)]
pub struct TrackingResult {
    /// Current accumulated world-to-camera pose.
    pub pose_world_to_cam: Pose3d,
    /// Status for this frame.
    pub status: TrackingStatus,
}

/// Pipeline mode.
#[derive(Debug, Clone, Copy, PartialEq, Eq)]
pub enum SystemMode {
    /// Bootstrap from two-view geometry before any map exists.
    Bootstrap,
    /// IMU initialization for scale and gravity
    ImuInit,
    /// Track against the existing map and insert keyframes when needed.
    Tracking,
}

/// Mutable pipeline state carried across frames. `T` is the type of timestamps.
#[derive(Debug)]
pub struct SystemState<T> {
    pub pose_world_to_cam: Pose3d,
    pub velocity: Option<Pose3d>,
    /// Metric body velocity in the world frame (m/s); valid once `imu_initialized`.
    pub velocity_world: Vec3F64,
    /// Timestamp of the previous processed frame, bounding the per-frame
    /// preintegration window.
    pub last_frame_timestamp_sec: T,
    /// Whether visual-inertial initialization succeeded (gates IMU pose prediction).
    pub imu_initialized: bool,
    /// Timestamp at which inertial initialization completed. IMU-only pose prediction is
    /// not trustworthy yet for a short window after this.
    pub imu_init_timestamp_sec: Option<T>,
    pub current_keyframe_idx: Option<usize>,
    pub last_keyframe_idx: Option<usize>,
    /// Timestamp of the first frame in the current run of tracking failures, or `None`
    /// while tracking is healthy.
    pub lost_since_sec: Option<T>,
    pub bootstrap_frame: Option<Frame>,
    pub mode: SystemMode,
}

/// The state of a system without a map: at a pose and a velocity, at a time.
pub open spec fn unmapped_state<T>(pose: Pose3d, velocity: Vec3F64, time: T) -> SystemState<T> {
    SystemState {
        pose_world_to_cam: pose,
        velocity: None,
        velocity_world: velocity,
        last_frame_timestamp_sec: time,
        imu_initialized: false,
        imu_init_timestamp_sec: None,
        current_keyframe_idx: None,
        last_keyframe_idx: None,
        lost_since_sec: None,
        bootstrap_frame: None,
        mode: SystemMode::Bootstrap,
    }
}

impl<T> SystemState<T> {
    /// The state to start from: a pose, the velocity at rest, and the time to count from.
    pub fn new(origin: Pose3d, at_rest: Vec3F64, start_sec: T) -> (state: SystemState<T>)
        ensures
            state == unmapped_state(origin, at_rest, start_sec),
    {
        SystemState {
            pose_world_to_cam: origin,
            velocity: None,
            velocity_world: at_rest,
            last_frame_timestamp_sec: start_sec,
            imu_initialized: false,
            imu_init_timestamp_sec: None,
            current_keyframe_idx: None,
            last_keyframe_idx: None,
            lost_since_sec: None,
            bootstrap_frame: None,
            mode: SystemMode::Bootstrap,
        }
    }

    /// Forgets the map. The new map starts at an unknown monocular scale, so the metric
    /// IMU state no longer applies until inertial initialization runs again. The pose and
    /// the time of the last frame stay.
    pub fn reset(&mut self, at_rest: Vec3F64)
        ensures
            *final(self) == unmapped_state(
                old(self).pose_world_to_cam,
                at_rest,
                old(self).last_frame_timestamp_sec,
            ),
    {
        self.mode = SystemMode::Bootstrap;
        self.current_keyframe_idx = None;
        self.last_keyframe_idx = None;
        self.velocity = None;
        self.lost_since_sec = None;
        self.bootstrap_frame = None;
        self.imu_initialized = false;
        self.imu_init_timestamp_sec = None;
        self.velocity_world = at_rest;
    }
}

/// A keyframe is always due where there was none, never within the minimum gap, and always
/// from the maximum gap on, where that is not the smaller one.
pub proof fn lemma_insert_by_gap<W: Fn(usize) -> usize>(
    policy: KeyframePolicy,
    curr_idx: usize,
    last_keyframe_idx: Option<usize>,
    inliers: usize,
    n_ref_map_points: usize,
    weak_threshold: W,
    insert: bool,
)
    requires
        is_insert_decision(
            policy,
            curr_idx,
            last_keyframe_idx,
            inliers,
            n_ref_map_points,
            weak_threshold,
            insert,
        ),
    ensures
        last_keyframe_idx is None ==> insert,
        last_keyframe_idx is Some && frame_gap(curr_idx, last_keyframe_idx->0)
            < policy.min_frames_between ==> !insert,
        last_keyframe_idx is Some && policy.min_frames_between <= policy.max_frames_between
            <= frame_gap(curr_idx, last_keyframe_idx->0) ==> insert,
        last_keyframe_idx is Some && curr_idx - last_keyframe_idx->0 < policy.min_frames_between
            && policy.min_frames_between > 0 ==> !insert,
        last_keyframe_idx is Some && curr_idx - last_keyframe_idx->0 >= policy.min_frames_between
            && curr_idx - last_keyframe_idx->0 >= policy.max_frames_between ==> insert,
{
}

/// Between the two gaps a keyframe is due where the reference keyframe has no map point, and
/// otherwise where tracking is weak, but not too weak: with at least as many inliers as a
/// keyframe needs, and fewer than the threshold for so many map points.
pub proof fn lemma_insert_when_weak<W: Fn(usize) -> usize>(
    policy: KeyframePolicy,
    curr_idx: usize,
    last: usize,
    inliers: usize,
    n_ref_map_points: usize,
    weak_threshold: W,
    insert: bool,
    weak: usize,
)
    requires
        is_insert_decision(
            policy,
            curr_idx,
            Some(last),
            inliers,
            n_ref_map_points,
            weak_threshold,
            insert,
        ),
        last <= curr_idx,
        policy.min_frames_between <= curr_idx - last < policy.max_frames_between,
        forall|said: usize| #[trigger]
            call_ensures(weak_threshold, (n_ref_map_points,), said) ==> said == weak,
    ensures
        n_ref_map_points == 0 ==> insert,
        n_ref_map_points > 0 ==> (insert <==> MIN_KEYFRAME_INLIERS <= inliers < weak),
{
}

/// A state without a map is at the pose, the velocity and the time that it is given; it knows no
/// keyframe and no step between frames, is not lost, waits for a first frame, and its inertial
/// state is not initialized.
pub proof fn lemma_unmapped_state<T>(pose: Pose3d, velocity: Vec3F64, time: T)
    ensures
        unmapped_state(pose, velocity, time).pose_world_to_cam == pose,
        unmapped_state(pose, velocity, time).velocity_world == velocity,
        unmapped_state(pose, velocity, time).last_frame_timestamp_sec == time,
        unmapped_state(pose, velocity, time).velocity is None,
        !unmapped_state(pose, velocity, time).imu_initialized,
        unmapped_state(pose, velocity, time).imu_init_timestamp_sec is None,
        unmapped_state(pose, velocity, time).current_keyframe_idx is None,
        unmapped_state(pose, velocity, time).last_keyframe_idx is None,
        unmapped_state(pose, velocity, time).lost_since_sec is None,
        unmapped_state(pose, velocity, time).bootstrap_frame is None,
        unmapped_state(pose, velocity, time).mode == SystemMode::Bootstrap,
{
}

} // verus!
