//! Map-projection-based estimator: matching, PnP, and tracking flow.
//!
//! ```text
//!        Map Points (3D)
//!        *   *       *
//!         \  |      /
//!    project & match (ORB)
//!           \|/
//!    .---------------.
//!   /    * . *      /   current frame
//!  /       *       /    (2D keypoints)
//!  '---------------'
//!          |
//!      solve PnP
//!          |
//!     [pose_w2c]
//!          |
//!   refine with local map
//!          |
//! Estimated { pose, inliers, matches }
//! ```

use super::pnp::{PnpLimits, FINAL_ERROR, PRIOR_ERROR};
use super::Estimate;
use crate::descriptor::{default_match_config, default_settings, match_settings};
use crate::frame::{
    descriptors, descriptors_of, keypoint_count, undistort_keypoints, undistorted, Frame,
};
use crate::geometry::{pixel_radius, project, projected, radius_of, transform, transformed};
use crate::mapping::map::SlamMap;
use crate::odometry::estimation::flow::{
    can_fall_back, is_outcome, lemma_motion_never_the_reason, outcome_of, track_frame,
    EstimationRejectReason, FlowConfig, FrameView, Outcome, Scene,
};
use crate::odometry::estimation::matching::{
    can_search, grid_over, is_grid_over, CellWindow, GridShape, KeypointGrid, Searcher,
};
use kornia_3d::camera::PinholeCamera;
use kornia_3d::pose::Pose3d;
use kornia_algebra::Vec2F32;
use kornia_image::ImageSize;
use std::collections::HashSet;
use kornia_imgproc::features::OrbMatchConfig;
use vstd::prelude::*;

pub use super::pnp::PnpConfig;
pub use crate::odometry::estimation::matching::ProjectionMatchConfig;
pub use crate::system::KeyframePolicy;

verus! {

broadcast use vstd::std_specs::hash::group_hash_axioms;

/// Map-projection tracking thresholds.
#[derive(Debug, Clone, Copy)]
pub struct MapProjectionConfig {
    /// Descriptor matcher settings for tracking against reference observations.
    pub match_config: OrbMatchConfig,
    /// PnP pose-estimation thresholds.
    pub pnp: PnpConfig,
    /// Projection matching config for initial tracking.
    pub projection: ProjectionMatchConfig,
    /// Projection matching config for local-map refinement (wider search).
    pub local_projection: ProjectionMatchConfig,
}

impl Default for MapProjectionConfig {
    fn default() -> (config: MapProjectionConfig)
        ensures
            config.pnp == (PnpConfig {
                limits: PnpLimits { prior_error: PRIOR_ERROR, final_error: FINAL_ERROR },
                min_correspondences: 4,
                min_inliers_early: 10,
                min_inliers: 30,
            }),
            match_settings(config.match_config) == default_settings(),
            config.projection == (ProjectionMatchConfig {
                nearest: None,
                search_radius: pixel_radius(15),
                max_hamming: 50,
            }),
            config.local_projection == (ProjectionMatchConfig {
                nearest: None,
                search_radius: pixel_radius(30),
                max_hamming: 60,
            }),
    {
        MapProjectionConfig {
            match_config: default_match_config(),
            pnp: PnpConfig::default(),
            projection: ProjectionMatchConfig::default(),
            local_projection: ProjectionMatchConfig {
                nearest: None,
                search_radius: radius_of(30),
                max_hamming: 60,
            },
        }
    }
}

/// Rejection reasons specific to the map-projection tracker.
#[derive(Debug, Clone, Copy, PartialEq, Eq, Hash)]
pub enum MapProjectionRejectReason {
    /// Too few projection-guided matches were available to run the first PnP stage.
    LowProjectionMatches,
    /// PnP solving failed for the provided correspondences.
    PnpFailed,
    /// PnP solved, but too few final inliers remained after validation.
    LowPnpInliers,
    /// Too few descriptor matches were found against the current reference keyframe.
    LowReferenceMatches,
    /// Too few valid 3D-2D correspondences could be built from reference matches.
    LowReferenceCorrespondences,
}

/// The reason as the tracking flow names it.
pub open spec fn flow_reason(reason: MapProjectionRejectReason) -> EstimationRejectReason {
    match reason {
        MapProjectionRejectReason::LowProjectionMatches => EstimationRejectReason::LowProjectionMatches,
        MapProjectionRejectReason::PnpFailed => EstimationRejectReason::PnpFailed,
        MapProjectionRejectReason::LowPnpInliers => EstimationRejectReason::LowPnpInliers,
        MapProjectionRejectReason::LowReferenceMatches => EstimationRejectReason::LowReferenceMatches,
        MapProjectionRejectReason::LowReferenceCorrespondences => EstimationRejectReason::LowReferenceCorrespondences,
    }
}

/// The result as the tracking flow names it.
pub open spec fn flow_outcome(result: Result<Estimate, MapProjectionRejectReason>) -> Outcome {
    match result {
        Ok(estimate) => Ok((estimate.pose, estimate.inliers, estimate.matches@)),
        Err(reason) => Err(flow_reason(reason)),
    }
}

/// The thresholds of the tracking flow under a map-projection configuration.
pub open spec fn projection_flow(config: MapProjectionConfig) -> FlowConfig {
    FlowConfig {
        match_config: config.match_config,
        limits: config.pnp.limits,
        min_correspondences: config.pnp.min_correspondences,
        min_inliers: config.pnp.min_inliers,
        projection: config.projection,
        local_projection: config.local_projection,
    }
}

/// Map-projection-based pose estimator.
///
/// Estimates the camera pose by projecting map points into the current frame,
/// matching via ORB descriptors, and solving PnP.
pub struct MapProjectionEstimator {
    camera: PinholeCamera,
    config: MapProjectionConfig,
}

/// Map point `i` is not culled, and the camera at the pose sees it in the image.
pub open spec fn is_visible(
    camera: PinholeCamera,
    map: SlamMap,
    pose: Pose3d,
    image_size: ImageSize,
    i: int,
) -> bool {
    &&& 0 <= i < map.pts().len()
    &&& !map.pts()[i].culled
    &&& projected(camera, transformed(pose, map.pts()[i].position), None, image_size) is Some
}

impl MapProjectionEstimator {
    /// The camera.
    pub closed spec fn spec_camera(&self) -> PinholeCamera {
        self.camera
    }

    /// The configuration.
    pub closed spec fn spec_config(&self) -> MapProjectionConfig {
        self.config
    }

    pub fn new(camera: PinholeCamera, config: MapProjectionConfig) -> (estimator:
        MapProjectionEstimator)
        ensures
            estimator.spec_camera() == camera,
            estimator.spec_config() == config,
    {
        MapProjectionEstimator { camera, config }
    }

    pub fn camera(&self) -> (camera: &PinholeCamera)
        ensures
            *camera == self.spec_camera(),
    {
        &self.camera
    }

    pub fn config(&self) -> (config: &MapProjectionConfig)
        ensures
            *config == self.spec_config(),
    {
        &self.config
    }

    /// All that tracking a frame depends on, apart from thresholds in pixels.
    pub open spec fn scene(
        &self,
        frame: Frame,
        grid: KeypointGrid,
        candidate_pose: Pose3d,
        map: SlamMap,
        current_keyframe_idx: Option<usize>,
    ) -> Scene {
        Scene {
            map,
            camera: self.spec_camera(),
            image_size: frame.image_size,
            features: frame.features,
            keypoints: undistorted(self.spec_camera(), frame.features),
            descriptors: descriptors_of(frame.features),
            grid,
            current: current_keyframe_idx,
            config: projection_flow(self.spec_config()),
            candidate: candidate_pose,
        }
    }

    /// Estimate the pose of `frame` against the map.
    ///
    /// `shape` is that of the grid over the undistorted keypoints of the frame. Every pose is
    /// a plausible one.
    pub fn estimate_pose<C, W>(
        &self,
        frame: &Frame,
        shape: GridShape,
        candidate_pose: &Pose3d,
        pose_before_tracking: &Pose3d,
        map: &SlamMap,
        current_keyframe_idx: Option<usize>,
        searcher: &Searcher<C, W>,
    ) -> (result: Result<Estimate, MapProjectionRejectReason>) where
        C: Fn(&Vec2F32) -> (usize, usize),
        W: Fn(&Vec2F32, &Vec2F32) -> CellWindow,

        requires
            shape.wf(),
            keypoint_count(frame.features) <= descriptors_of(frame.features).len(),
            can_fall_back(
                *map,
                current_keyframe_idx,
                frame.features,
                self.spec_config().match_config,
            ),
            can_search(*searcher),
        ensures
            exists|grid: KeypointGrid|
                {
                    &&& #[trigger] is_grid_over(
                        searcher.cell,
                        shape,
                        undistorted(self.spec_camera(), frame.features),
                        grid,
                    )
                    &&& is_outcome(
                        self.scene(*frame, grid, *candidate_pose, *map, current_keyframe_idx),
                        *searcher,
                        |from: Pose3d, to: Pose3d, said: bool| said,
                        *pose_before_tracking,
                        flow_outcome(result),
                    )
                },
    {
        let config = FlowConfig {
            match_config: self.config.match_config,
            limits: self.config.pnp.limits,
            min_correspondences: self.config.pnp.min_correspondences,
            min_inliers: self.config.pnp.min_inliers,
            projection: self.config.projection,
            local_projection: self.config.local_projection,
        };
        let keypoints = undistort_keypoints(&self.camera, &frame.features);
        let grid = grid_over(&searcher.cell, shape, keypoints.as_slice());
        let view = FrameView {
            camera: &self.camera,
            image_size: frame.image_size,
            features: &frame.features,
            keypoints: keypoints.as_slice(),
            descriptors: descriptors(&frame.features).as_slice(),
            grid: &grid,
        };
        let is_plausible = |from: &Pose3d, to: &Pose3d| -> (said: bool)
            ensures
                said,
            { true };
        let ghost scene = self.scene(*frame, grid, *candidate_pose, *map, current_keyframe_idx);
        let ghost plausible = |from: Pose3d, to: Pose3d, said: bool| said;
        let result = track_frame(
            map,
            &view,
            current_keyframe_idx,
            config,
            candidate_pose,
            pose_before_tracking,
            searcher,
            &is_plausible,
            Ghost(scene),
            Ghost(plausible),
        );
        proof {
            lemma_motion_never_the_reason(
                scene,
                *searcher,
                plausible,
                *pose_before_tracking,
                outcome_of(result),
            );
        }
        match result {
            Ok(estimate) => Ok(estimate),
            Err(reason) => Err(
                match reason {
                    EstimationRejectReason::LowProjectionMatches => MapProjectionRejectReason::LowProjectionMatches,
                    EstimationRejectReason::LowPnpInliers => MapProjectionRejectReason::LowPnpInliers,
                    EstimationRejectReason::LowReferenceMatches => MapProjectionRejectReason::LowReferenceMatches,
                    EstimationRejectReason::LowReferenceCorrespondences => MapProjectionRejectReason::LowReferenceCorrespondences,
                    EstimationRejectReason::PnpFailed
                    | EstimationRejectReason::PnpInconsistentMotion => MapProjectionRejectReason::PnpFailed,
                },
            ),
        }
    }

    /// Returns indices of map points visible in the current camera frustum.
    pub fn visible_map_points(
        &self,
        map: &SlamMap,
        pose_world_to_cam: &Pose3d,
        image_size: ImageSize,
    ) -> (visible: HashSet<usize>)
        ensures
            forall|i: usize| #[trigger]
                visible@.contains(i) <==> is_visible(
                    self.spec_camera(),
                    *map,
                    *pose_world_to_cam,
                    image_size,
                    i as int,
                ),
    {
        let pts = map.map_points();
        let mut visible: HashSet<usize> = HashSet::new();
        let mut p: usize = 0;
        while p < pts.len()
            invariant
                p <= pts@.len(),
                pts@ == map.pts(),
                forall|i: usize| #[trigger]
                    visible@.contains(i) <==> i < p && is_visible(
                        self.spec_camera(),
                        *map,
                        *pose_world_to_cam,
                        image_size,
                        i as int,
                    ),
            decreases pts@.len() - p,
        {
            if !pts[p].culled {
                let p_cam = transform(pose_world_to_cam, &pts[p].position);
                if project(&self.camera, &p_cam, None, image_size).is_some() {
                    visible.insert(p);
                }
            }
            p += 1;
        }
        visible
    }
}

/// What is visible is what projection matching can match: a map point that is matched at a pose,
/// with no least depth but that of the camera, is visible from that pose.
pub proof fn lemma_matched_points_are_visible<C, W>(
    searcher: Searcher<C, W>,
    camera: PinholeCamera,
    image_size: ImageSize,
    map: SlamMap,
    keypoints: Seq<Vec2F32>,
    descriptors: Seq<[u8; 32]>,
    grid: KeypointGrid,
    pose: Pose3d,
    config: ProjectionMatchConfig,
    matches: Seq<(usize, usize)>,
) where
    C: Fn(&Vec2F32) -> (usize, usize),
    W: Fn(&Vec2F32, &Vec2F32) -> CellWindow,

    requires
        crate::odometry::estimation::matching::is_projection_match(
            searcher,
            camera,
            image_size,
            map.pts(),
            keypoints,
            descriptors,
            grid,
            pose,
            config,
            matches,
        ),
        config.nearest is None,
        map.pts().len() <= usize::MAX,
    ensures
        forall|i: int|
            0 <= i < matches.len() ==> is_visible(
                camera,
                map,
                pose,
                image_size,
                (#[trigger] matches[i]).0 as int,
            ),
        forall|p: int|
            0 <= p < map.pts().len() && (map.pts()[p].culled || projected(
                camera,
                transformed(pose, map.pts()[p].position),
                None,
                image_size,
            ) is None) ==> !#[trigger] is_visible(camera, map, pose, image_size, p),
{
    crate::odometry::estimation::matching::lemma_projection_match_is_one_to_one(
        searcher,
        camera,
        image_size,
        map.pts(),
        keypoints,
        descriptors,
        grid,
        pose,
        config,
        matches,
    );
    crate::odometry::estimation::matching::lemma_matches_are_where_points_project(
        searcher,
        camera,
        image_size,
        map.pts(),
        keypoints,
        descriptors,
        grid,
        pose,
        config,
        matches,
    );
}

/// Every threshold of the tracking flow is the one of the configuration that is named for it,
/// and every reason for which there is no pose has its own name.
pub proof fn lemma_projection_flow(config: MapProjectionConfig)
    ensures
        projection_flow(config).match_config == config.match_config,
        projection_flow(config).limits == config.pnp.limits,
        projection_flow(config).min_correspondences == config.pnp.min_correspondences,
        projection_flow(config).min_inliers == config.pnp.min_inliers,
        projection_flow(config).projection == config.projection,
        projection_flow(config).local_projection == config.local_projection,
        forall|a: MapProjectionRejectReason, b: MapProjectionRejectReason|
            #[trigger] flow_reason(a) == #[trigger] flow_reason(b) ==> a == b,
        flow_reason(MapProjectionRejectReason::LowProjectionMatches)
            == EstimationRejectReason::LowProjectionMatches,
        flow_reason(MapProjectionRejectReason::PnpFailed) == EstimationRejectReason::PnpFailed,
        flow_reason(MapProjectionRejectReason::LowPnpInliers)
            == EstimationRejectReason::LowPnpInliers,
        flow_reason(MapProjectionRejectReason::LowReferenceMatches)
            == EstimationRejectReason::LowReferenceMatches,
{
}

/// Tracking goes by the frame that it is given, its undistorted keypoints and its descriptors;
/// by the map, the keyframe and the predicted pose that it is given; and by the camera and the
/// thresholds of the estimator.
pub proof fn lemma_scene(
    estimator: MapProjectionEstimator,
    frame: Frame,
    grid: KeypointGrid,
    candidate_pose: Pose3d,
    map: SlamMap,
    current_keyframe_idx: Option<usize>,
)
    ensures
        ({
            let scene = estimator.scene(frame, grid, candidate_pose, map, current_keyframe_idx);
            &&& scene.map == map
            &&& scene.camera == estimator.spec_camera()
            &&& scene.image_size == frame.image_size
            &&& scene.features == frame.features
            &&& scene.keypoints.len() == keypoint_count(frame.features)
            &&& forall|i: int|
                0 <= i < scene.keypoints.len() ==> #[trigger] scene.keypoints[i]
                    == crate::frame::undistorted_keypoint(
                    estimator.spec_camera(),
                    frame.features,
                    i,
                )
            &&& scene.descriptors == descriptors_of(frame.features)
            &&& scene.grid == grid
            &&& scene.current == current_keyframe_idx
            &&& scene.config == projection_flow(estimator.spec_config())
            &&& scene.candidate == candidate_pose
        }),
{
}

} // verus!
