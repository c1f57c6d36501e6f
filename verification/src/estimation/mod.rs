//! Estimation: poses from map points, two views and tracks.

pub mod imu_init;
pub mod map_projection;
pub mod optical_flow;
pub mod pnp;
pub mod two_view;

use kornia_3d::pose::Pose3d;
use vstd::prelude::*;

pub use map_projection::MapProjectionEstimator;

verus! {

/// An estimated pose, with the matches it comes from.
#[derive(Debug)]
pub struct Estimate {
    /// Camera pose in world-to-camera convention.
    pub pose: Pose3d,
    /// How many correspondences fit the pose.
    pub inliers: usize,
    /// Pairs of map point and keypoint.
    pub matches: Vec<(usize, usize)>,
}

} // verus!
