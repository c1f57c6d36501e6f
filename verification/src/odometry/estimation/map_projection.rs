//! Map-projection-based estimator: matches map points to frame features via PnP.

use super::flow::{
    can_fall_back, is_outcome, lemma_nothing_to_track, outcome_of, track_frame, FlowConfig,
    FrameView, Outcome, Scene,
};
use super::matching::{
    can_search, grid_over, is_grid_over, CellWindow, GridShape, KeypointGrid,
    ProjectionMatchConfig, Searcher,
};
use super::pnp::{
    can_measure, is_increment_judgement, pose_increment_ok, PnpConfig, MAX_ROTATION_DEG, MAX_TRANSLATION,
};
use super::Estimator;
use crate::descriptor::{default_match_config, default_settings, match_settings};
use crate::estimation::pnp::{FINAL_ERROR, PRIOR_ERROR};
use crate::estimation::Estimate;
use crate::frame::{
    count_keypoints, descriptors, descriptors_of, keypoint_count, undistort_keypoints,
    undistorted, Frame,
};
use crate::geometry::{pixel_radius, radius_of};
use crate::mapping::local_map::is_tracked;
use crate::mapping::map::{MapPoint, SlamMap};
use crate::system::is_insert_decision;
use kornia_3d::camera::PinholeCamera;
use kornia_3d::pose::Pose3d;
use kornia_algebra::{Vec2F32, Vec3F64};
use kornia_imgproc::features::OrbMatchConfig;
use vstd::prelude::*;

pub use super::flow::EstimationRejectReason;
pub use crate::system::KeyframePolicy;

verus! {

/// Search radius in pixels of a match by projection.
pub const PROJECTION_RADIUS: u16 = 15;

/// Search radius in pixels of a match with the local map.
pub const LOCAL_RADIUS: u16 = 30;

/// Largest descriptor distance of a match by projection.
pub const PROJECTION_MAX_HAMMING: u32 = 50;

/// Largest descriptor distance of a match with the local map.
pub const LOCAL_MAX_HAMMING: u32 = 60;

/// Odometry-phase thresholds.
#[derive(Debug, Clone, Copy)]
pub struct OdometryConfig {
    /// Descriptor matcher settings for tracking against reference observations.
    pub match_config: OrbMatchConfig,
    /// Minimum pose inliers to accept a keyframe.
    pub min_inliers: usize,
    /// Maximum consecutive tracking failures before resetting to bootstrap.
    pub max_consecutive_failures: usize,
    /// Enable local bundle adjustment after keyframe insertion.
    pub enable_local_ba: bool,
    /// Keyframe insertion policy.
    pub keyframe_policy: KeyframePolicy,
    /// PnP pose-estimation thresholds.
    pub pnp: PnpConfig,
}

impl Default for OdometryConfig {
    fn default() -> (config: OdometryConfig)
        ensures
            match_settings(config.match_config) == default_settings(),
            config.min_inliers == 30,
            config.max_consecutive_failures == 15,
            config.enable_local_ba,
            config.keyframe_policy.min_frames_between == 3,
            config.keyframe_policy.max_frames_between == 8,
            config.pnp.limits.prior_error == PRIOR_ERROR,
            config.pnp.limits.final_error == FINAL_ERROR,
            config.pnp.max_rotation == MAX_ROTATION_DEG,
            config.pnp.max_translation == MAX_TRANSLATION,
            config.pnp.min_correspondences == 4,
    {
        OdometryConfig {
            match_config: default_match_config(),
            min_inliers: 30,
            max_consecutive_failures: 15,
            enable_local_ba: true,
            keyframe_policy: KeyframePolicy::default(),
            pnp: PnpConfig::default(),
        }
    }
}

/// Map-projection-based pose estimator.
///
/// Estimates the camera pose by projecting map points into the current frame,
/// matching via ORB descriptors, and solving PnP.
pub struct MapProjectionEstimator {
    camera: PinholeCamera,
    config: OdometryConfig,
    last_matches: Vec<(usize, usize)>,
    last_inliers: usize,
}

/// The thresholds of the tracking flow under an odometry configuration.
pub open spec fn odometry_flow(config: OdometryConfig) -> FlowConfig {
    FlowConfig {
        match_config: config.match_config,
        limits: config.pnp.limits,
        min_correspondences: config.pnp.min_correspondences,
        min_inliers: config.min_inliers,
        projection: ProjectionMatchConfig {
            nearest: None,
            search_radius: pixel_radius(PROJECTION_RADIUS),
            max_hamming: PROJECTION_MAX_HAMMING,
        },
        local_projection: ProjectionMatchConfig {
            nearest: None,
            search_radius: pixel_radius(LOCAL_RADIUS),
            max_hamming: LOCAL_MAX_HAMMING,
        },
    }
}

/// A point after a frame: seen once more if it is in the image, found once more if it is
/// matched too; the counters stop at their largest value.
pub open spec fn observed(mp: MapPoint, in_image: bool, matched: bool) -> MapPoint {
    if mp.culled || !in_image {
        mp
    } else {
        MapPoint {
            n_visible: counted(mp.n_visible),
            n_found: if matched {
                counted(mp.n_found)
            } else {
                mp.n_found
            },
            ..mp
        }
    }
}

/// One more, up to the largest value.
pub open spec fn counted(n: u32) -> u32 {
    if n == u32::MAX {
        n
    } else {
        (n + 1) as u32
    }
}

fn count_up(n: u32) -> (more: u32)
    ensures
        more == counted(n),
{
    if n == u32::MAX {
        n
    } else {
        n + 1
    }
}

impl MapProjectionEstimator {
    /// The camera.
    pub closed spec fn spec_camera(&self) -> PinholeCamera {
        self.camera
    }

    /// The configuration.
    pub closed spec fn spec_config(&self) -> OdometryConfig {
        self.config
    }

    /// Matches from the last successful `track()` call.
    pub closed spec fn spec_last_matches(&self) -> Seq<(usize, usize)> {
        self.last_matches@
    }

    /// Inlier count from the last successful `track()` call.
    pub closed spec fn spec_last_inliers(&self) -> usize {
        self.last_inliers
    }

    pub fn new(camera: PinholeCamera, config: OdometryConfig) -> (estimator: MapProjectionEstimator)
        ensures
            estimator.spec_camera() == camera,
            estimator.spec_config() == config,
            estimator.spec_last_matches().len() == 0,
            estimator.spec_last_inliers() == 0,
    {
        MapProjectionEstimator { camera, config, last_matches: Vec::new(), last_inliers: 0 }
    }

    pub fn camera(&self) -> (camera: &PinholeCamera)
        ensures
            *camera == self.spec_camera(),
    {
        &self.camera
    }

    pub fn config(&self) -> (config: &OdometryConfig)
        ensures
            *config == self.spec_config(),
    {
        &self.config
    }

    /// Matches from the last successful `track()` call: `(map_point_idx, keypoint_idx)`.
    pub fn last_matches(&self) -> (matches: &[(usize, usize)])
        ensures
            matches@ == self.spec_last_matches(),
    {
        self.last_matches.as_slice()
    }

    /// Inlier count from the last successful `track()` call.
    pub fn last_inliers(&self) -> (inliers: usize)
        ensures
            inliers == self.spec_last_inliers(),
    {
        self.last_inliers
    }

    /// All that tracking a frame depends on, apart from thresholds in pixels.
    pub open spec fn scene(
        &self,
        frame: Frame,
        grid: KeypointGrid,
        candidate_pose: Pose3d,
        map: SlamMap,
        current_keyframe_idx: Option<usize>,
    ) -> Scene {
        Scene {
            map,
            camera: self.spec_camera(),
            image_size: frame.image_size,
            features: frame.features,
            keypoints: undistorted(self.spec_camera(), frame.features),
            descriptors: descriptors_of(frame.features),
            grid,
            current: current_keyframe_idx,
            config: odometry_flow(self.spec_config()),
            candidate: candidate_pose,
        }
    }

    /// `outcome` is what tracking a frame comes to, with a grid of the given shape over its
    /// undistorted keypoints.
    pub open spec fn is_tracking<C, W, A>(
        &self,
        frame: Frame,
        shape: GridShape,
        candidate_pose: Pose3d,
        pose_before_tracking: Pose3d,
        map: SlamMap,
        current_keyframe_idx: Option<usize>,
        searcher: Searcher<C, W>,
        rotation_deg: A,
        outcome: Outcome,
    ) -> bool where
        C: Fn(&Vec2F32) -> (usize, usize),
        W: Fn(&Vec2F32, &Vec2F32) -> CellWindow,
        A: Fn(&Pose3d, &Pose3d) -> u64,
     {
        exists|grid: KeypointGrid|
            {
                &&& #[trigger] is_grid_over(
                    searcher.cell,
                    shape,
                    undistorted(self.spec_camera(), frame.features),
                    grid,
                )
                &&& is_outcome(
                    self.scene(frame, grid, candidate_pose, map, current_keyframe_idx),
                    searcher,
                    |from: Pose3d, to: Pose3d, said: bool|
                        is_increment_judgement(
                            self.spec_config().pnp,
                            &rotation_deg,
                            from,
                            to,
                            said,
                        ),
                    pose_before_tracking,
                    outcome,
                )
            }
    }

    /// Estimate the pose of `frame` against the map, and keep its matches and inliers.
    ///
    /// `shape` is that of the grid over the undistorted keypoints of the frame.
    /// `rotation_deg` gives the angle between two poses in degrees, by its bits: a pose that is
    /// too far from the predicted one is not believed.
    pub fn track<C, W, A>(
        &mut self,
        frame: &Frame,
        shape: GridShape,
        candidate_pose: &Pose3d,
        pose_before_tracking: &Pose3d,
        map: &SlamMap,
        current_keyframe_idx: Option<usize>,
        searcher: &Searcher<C, W>,
        rotation_deg: &A,
    ) -> (result: Result<Pose3d, EstimationRejectReason>) where
        C: Fn(&Vec2F32) -> (usize, usize),
        W: Fn(&Vec2F32, &Vec2F32) -> CellWindow,
        A: Fn(&Pose3d, &Pose3d) -> u64,

        requires
            shape.wf(),
            keypoint_count(frame.features) <= descriptors_of(frame.features).len(),
            can_fall_back(
                *map,
                current_keyframe_idx,
                frame.features,
                old(self).spec_config().match_config,
            ),
            can_search(*searcher),
            forall|from: Pose3d, to: Pose3d| can_measure(rotation_deg, from, to),
        ensures
            final(self).spec_camera() == old(self).spec_camera(),
            final(self).spec_config() == old(self).spec_config(),
            match result {
                Ok(pose) => old(self).is_tracking(
                    *frame,
                    shape,
                    *candidate_pose,
                    *pose_before_tracking,
                    *map,
                    current_keyframe_idx,
                    *searcher,
                    *rotation_deg,
                    Ok((pose, final(self).spec_last_inliers(), final(self).spec_last_matches())),
                ),
                Err(reason) => {
                    &&& *final(self) == *old(self)
                    &&& old(self).is_tracking(
                        *frame,
                        shape,
                        *candidate_pose,
                        *pose_before_tracking,
                        *map,
                        current_keyframe_idx,
                        *searcher,
                        *rotation_deg,
                        Err(reason),
                    )
                },
            },
    {
        match self.estimate_pose(
            frame,
            shape,
            candidate_pose,
            pose_before_tracking,
            map,
            current_keyframe_idx,
            searcher,
            rotation_deg,
        ) {
            Ok(estimate) => {
                self.last_matches = estimate.matches;
                self.last_inliers = estimate.inliers;
                Ok(estimate.pose)
            },
            Err(reason) => Err(reason),
        }
    }

    fn estimate_pose<C, W, A>(
        &self,
        frame: &Frame,
        shape: GridShape,
        candidate_pose: &Pose3d,
        pose_before_tracking: &Pose3d,
        map: &SlamMap,
        current_keyframe_idx: Option<usize>,
        searcher: &Searcher<C, W>,
        rotation_deg: &A,
    ) -> (result: Result<Estimate, EstimationRejectReason>) where
        C: Fn(&Vec2F32) -> (usize, usize),
        W: Fn(&Vec2F32, &Vec2F32) -> CellWindow,
        A: Fn(&Pose3d, &Pose3d) -> u64,

        requires
            shape.wf(),
            keypoint_count(frame.features) <= descriptors_of(frame.features).len(),
            can_fall_back(
                *map,
                current_keyframe_idx,
                frame.features,
                self.spec_config().match_config,
            ),
            can_search(*searcher),
            forall|from: Pose3d, to: Pose3d| can_measure(rotation_deg, from, to),
        ensures
            self.is_tracking(
                *frame,
                shape,
                *candidate_pose,
                *pose_before_tracking,
                *map,
                current_keyframe_idx,
                *searcher,
                *rotation_deg,
                outcome_of(result),
            ),
    {
        let config = FlowConfig {
            match_config: self.config.match_config,
            limits: self.config.pnp.limits,
            min_correspondences: self.config.pnp.min_correspondences,
            min_inliers: self.config.min_inliers,
            projection: ProjectionMatchConfig {
                nearest: None,
                search_radius: radius_of(PROJECTION_RADIUS),
                max_hamming: PROJECTION_MAX_HAMMING,
            },
            local_projection: ProjectionMatchConfig {
                nearest: None,
                search_radius: radius_of(LOCAL_RADIUS),
                max_hamming: LOCAL_MAX_HAMMING,
            },
        };
        let keypoints = undistort_keypoints(&self.camera, &frame.features);
        let grid = grid_over(&searcher.cell, shape, keypoints.as_slice());
        let view = FrameView {
            camera: &self.camera,
            image_size: frame.image_size,
            features: &frame.features,
            keypoints: keypoints.as_slice(),
            descriptors: descriptors(&frame.features).as_slice(),
            grid: &grid,
        };
        let pnp = &self.config.pnp;
        let is_plausible = |from: &Pose3d, to: &Pose3d| -> (said: bool)
            requires
                can_measure(rotation_deg, *from, *to),
            ensures
                is_increment_judgement(*pnp, rotation_deg, *from, *to, said),
            { pose_increment_ok(from, to, pnp, rotation_deg) };
        track_frame(
            map,
            &view,
            current_keyframe_idx,
            config,
            candidate_pose,
            pose_before_tracking,
            searcher,
            &is_plausible,
            Ghost(self.scene(*frame, grid, *candidate_pose, *map, current_keyframe_idx)),
            Ghost(
                |from: Pose3d, to: Pose3d, said: bool|
                    is_increment_judgement(
                        self.spec_config().pnp,
                        rotation_deg,
                        from,
                        to,
                        said,
                    ),
            ),
        )
    }

    /// Update `n_visible` and `n_found` for map points based on the current frame.
    ///
    /// `in_image` tells whether the camera at the pose sees a world point in the image.
    pub fn update_map_point_observations<I: Fn(&Pose3d, &Vec3F64) -> bool>(
        &self,
        map: &mut SlamMap,
        matched: &[(usize, usize)],
        pose_world_to_cam: &Pose3d,
        in_image: I,
    )
        requires
            forall|pose: &Pose3d, point: &Vec3F64| call_requires(in_image, (pose, point)),
        ensures
            final(map).kfs() == old(map).kfs(),
            final(map).pts().len() == old(map).pts().len(),
            forall|i: int|
                0 <= i < old(map).pts().len() ==> is_observed(
                    old(map).pts()[i],
                    is_tracked(matched@, i),
                    *pose_world_to_cam,
                    in_image,
                    #[trigger] final(map).pts()[i],
                ),
    {
        observe_points(map.map_points_mut(), matched, pose_world_to_cam, &in_image);
    }

    /// Decide whether a new keyframe should be inserted. `weak_threshold` gives the number
    /// of inliers below which tracking is weak, for a reference keyframe with so many map
    /// points.
    pub fn need_new_keyframe<W: Fn(usize) -> usize>(
        &self,
        curr_idx: usize,
        last_keyframe_idx: Option<usize>,
        tracked_inliers: usize,
        n_ref_map_points: usize,
        weak_threshold: W,
    ) -> (insert: bool)
        requires
            call_requires(weak_threshold, (n_ref_map_points,)),
        ensures
            is_insert_decision(
                self.spec_config().keyframe_policy,
                curr_idx,
                last_keyframe_idx,
                tracked_inliers,
                n_ref_map_points,
                weak_threshold,
                insert,
            ),
    {
        self.config.keyframe_policy.should_insert(
            curr_idx,
            last_keyframe_idx,
            tracked_inliers,
            n_ref_map_points,
            weak_threshold,
        )
    }
}

/// `after` is the point `before` after a frame.
pub open spec fn is_observed<I: Fn(&Pose3d, &Vec3F64) -> bool>(
    before: MapPoint,
    matched: bool,
    pose: Pose3d,
    in_image: I,
    after: MapPoint,
) -> bool {
    if before.culled {
        after == before
    } else {
        exists|seen: bool|
            {
                &&& #[trigger] call_ensures(in_image, (&pose, &before.position), seen)
                &&& after == observed(before, seen, matched)
            }
    }
}

fn observe_points<I: Fn(&Pose3d, &Vec3F64) -> bool>(
    pts: &mut Vec<MapPoint>,
    matched: &[(usize, usize)],
    pose: &Pose3d,
    in_image: &I,
)
    requires
        forall|pose: &Pose3d, point: &Vec3F64| call_requires(*in_image, (pose, point)),
    ensures
        final(pts)@.len() == old(pts)@.len(),
        forall|i: int|
            0 <= i < old(pts)@.len() ==> is_observed(
                old(pts)@[i],
                is_tracked(matched@, i),
                *pose,
                *in_image,
                #[trigger] final(pts)@[i],
            ),
{
    let ghost before = pts@;
    let flags = crate::mapping::local_map::flag_tracked(pts.len(), matched);
    let mut p: usize = 0;
    while p < pts.len()
        invariant
            p <= pts@.len(),
            pts@.len() == before.len(),
            flags@.len() == before.len(),
            forall|i: int| 0 <= i < before.len() ==> #[trigger] flags@[i] == is_tracked(matched@, i),
            forall|pose: &Pose3d, point: &Vec3F64| call_requires(*in_image, (pose, point)),
            forall|i: int|
                0 <= i < p ==> is_observed(
                    before[i],
                    is_tracked(matched@, i),
                    *pose,
                    *in_image,
                    #[trigger] pts@[i],
                ),
            forall|i: int| p <= i < before.len() ==> #[trigger] pts@[i] == before[i],
        decreases pts@.len() - p,
    {
        let mut mp = pts[p];
        if !mp.culled && in_image(pose, &mp.position) {
            mp.n_visible = count_up(mp.n_visible);
            if flags[p] {
                mp.n_found = count_up(mp.n_found);
            }
            pts.set(p, mp);
        }
        assert(flags@[p as int] == is_tracked(matched@, p as int));
        assert(is_observed(
            before[p as int],
            is_tracked(matched@, p as int),
            *pose,
            *in_image,
            pts@[p as int],
        ));
        p += 1;
    }
}

impl Estimator for MapProjectionEstimator {
    /// Without a map or a keyframe there is nothing to estimate the pose against: there is
    /// no estimate, and the last one is kept.
    fn estimate(&mut self, frame: &Frame, predicted_pose: &Pose3d) -> (pose: Option<Pose3d>)
        ensures
            pose is None,
            *final(self) == *old(self),
    {
        let map = SlamMap::new();
        let shape = GridShape { n_cols: 1, n_rows: 1 };
        let searcher = Searcher {
            cell: |keypoint: &Vec2F32| -> (usize, usize) { (0, 0) },
            window: |pixel: &Vec2F32, radius: &Vec2F32| -> CellWindow
                { CellWindow { col_min: 0, col_max: 0, row_min: 0, row_max: 0 } },
        };
        let rotation_deg = |from: &Pose3d, to: &Pose3d| -> u64 { 0 };
        if count_keypoints(&frame.features) > descriptors(&frame.features).len() {
            return None;
        }
        let ghost before = *self;
        let result = self.track(
            frame,
            shape,
            predicted_pose,
            predicted_pose,
            &map,
            None,
            &searcher,
            &rotation_deg,
        );
        proof {
            let outcome = match result {
                Ok(pose) => Ok((pose, self.spec_last_inliers(), self.spec_last_matches())),
                Err(reason) => Err(reason),
            };
            let plausible = |from: Pose3d, to: Pose3d, said: bool|
                is_increment_judgement(before.spec_config().pnp, &rotation_deg, from, to, said);
            let keypoints = undistorted(before.spec_camera(), frame.features);
            let grid = choose|grid: KeypointGrid|
                {
                    &&& #[trigger] is_grid_over(searcher.cell, shape, keypoints, grid)
                    &&& is_outcome(
                        before.scene(*frame, grid, *predicted_pose, map, None),
                        searcher,
                        plausible,
                        *predicted_pose,
                        outcome,
                    )
                };
            lemma_nothing_to_track(
                before.scene(*frame, grid, *predicted_pose, map, None),
                searcher,
                plausible,
                *predicted_pose,
                outcome,
            );
        }
        match result {
            Ok(pose) => Some(pose),
            Err(_) => None,
        }
    }
}

/// A frame counts for a live map point exactly where the camera sees the point: it is then seen
/// once more, and found once more where it is matched, up to the largest counts. Nothing else
/// of a point changes, and nothing of one that is culled or not seen.
pub proof fn lemma_observed<I: Fn(&Pose3d, &Vec3F64) -> bool>(
    before: MapPoint,
    matched: bool,
    pose: Pose3d,
    in_image: I,
    after: MapPoint,
    seen: bool,
)
    requires
        is_observed(before, matched, pose, in_image, after),
        forall|said: bool| #[trigger]
            call_ensures(in_image, (&pose, &before.position), said) ==> said == seen,
    ensures
        before.culled || !seen ==> after == before,
        !before.culled && seen ==> {
            &&& before.n_visible < u32::MAX ==> after.n_visible == before.n_visible + 1
            &&& before.n_visible == u32::MAX ==> after.n_visible == u32::MAX
            &&& matched && before.n_found < u32::MAX ==> after.n_found == before.n_found + 1
            &&& !matched || before.n_found == u32::MAX ==> after.n_found == before.n_found
        },
        after.position == before.position,
        after.descriptor == before.descriptor,
        after.keyframe_idx == before.keyframe_idx,
        after.culled == before.culled,
{
}

/// Tracking searches within fifteen pixels, and the local map within thirty; it accepts
/// descriptors that differ in fifty bits, and in sixty; and it takes all other thresholds from
/// the configuration.
pub proof fn lemma_odometry_flow(config: OdometryConfig)
    ensures
        odometry_flow(config).projection.search_radius == pixel_radius(15),
        odometry_flow(config).projection.max_hamming == 50,
        odometry_flow(config).projection.nearest is None,
        odometry_flow(config).local_projection.search_radius == pixel_radius(30),
        odometry_flow(config).local_projection.max_hamming == 60,
        odometry_flow(config).local_projection.nearest is None,
        odometry_flow(config).match_config == config.match_config,
        odometry_flow(config).limits == config.pnp.limits,
        odometry_flow(config).min_correspondences == config.pnp.min_correspondences,
        odometry_flow(config).min_inliers == config.min_inliers,
{
}

/// From the predicted pose to the one that tracking gives, the camera turns and moves no farther
/// than the limits allow.
pub proof fn lemma_tracked_step_is_small<C, W, A>(
    estimator: MapProjectionEstimator,
    frame: Frame,
    shape: GridShape,
    candidate_pose: Pose3d,
    pose_before_tracking: Pose3d,
    map: SlamMap,
    current_keyframe_idx: Option<usize>,
    searcher: Searcher<C, W>,
    rotation_deg: A,
    pose: Pose3d,
    inliers: usize,
    matches: Seq<(usize, usize)>,
) where
    C: Fn(&Vec2F32) -> (usize, usize),
    W: Fn(&Vec2F32, &Vec2F32) -> CellWindow,
    A: Fn(&Pose3d, &Pose3d) -> u64,

    requires
        estimator.is_tracking(
            frame,
            shape,
            candidate_pose,
            pose_before_tracking,
            map,
            current_keyframe_idx,
            searcher,
            rotation_deg,
            Ok((pose, inliers, matches)),
        ),
    ensures
        ({
            let limits = estimator.spec_config().pnp;
            let moved = crate::geometry::length_of(
                crate::geometry::vector_difference(
                    crate::geometry::translation_of(pose),
                    crate::geometry::translation_of(candidate_pose),
                ),
            );
            &&& crate::double::at_least(crate::double::number(limits.max_translation), moved)
            &&& exists|angle: u64|
                {
                    &&& #[trigger] call_ensures(rotation_deg, (&candidate_pose, &pose), angle)
                    &&& crate::double::at_least(
                        crate::double::number(limits.max_rotation),
                        crate::double::number(angle),
                    )
                }
        }),
{
    let plausible = |from: Pose3d, to: Pose3d, said: bool|
        is_increment_judgement(estimator.spec_config().pnp, &rotation_deg, from, to, said);
    let grid = choose|grid: KeypointGrid|
        {
            &&& #[trigger] is_grid_over(
                searcher.cell,
                shape,
                undistorted(estimator.spec_camera(), frame.features),
                grid,
            )
            &&& is_outcome(
                estimator.scene(frame, grid, candidate_pose, map, current_keyframe_idx),
                searcher,
                plausible,
                pose_before_tracking,
                Ok((pose, inliers, matches)),
            )
        };
    super::flow::lemma_tracked_pose_is_plausible(
        estimator.scene(frame, grid, candidate_pose, map, current_keyframe_idx),
        searcher,
        plausible,
        pose_before_tracking,
        Ok((pose, inliers, matches)),
    );
    assert(plausible(candidate_pose, pose, true));
}

/// Tracking goes by the frame that it is given, its undistorted keypoints and its descriptors;
/// by the map, the keyframe and the predicted pose that it is given; and by the camera and the
/// thresholds of the estimator.
pub proof fn lemma_scene(
    estimator: MapProjectionEstimator,
    frame: Frame,
    grid: KeypointGrid,
    candidate_pose: Pose3d,
    map: SlamMap,
    current_keyframe_idx: Option<usize>,
)
    ensures
        ({
            let scene = estimator.scene(frame, grid, candidate_pose, map, current_keyframe_idx);
            &&& scene.map == map
            &&& scene.camera == estimator.spec_camera()
            &&& scene.image_size == frame.image_size
            &&& scene.features == frame.features
            &&& scene.keypoints.len() == keypoint_count(frame.features)
            &&& forall|i: int|
                0 <= i < scene.keypoints.len() ==> #[trigger] scene.keypoints[i]
                    == crate::frame::undistorted_keypoint(
                    estimator.spec_camera(),
                    frame.features,
                    i,
                )
            &&& scene.descriptors == descriptors_of(frame.features)
            &&& scene.grid == grid
            &&& scene.current == current_keyframe_idx
            &&& scene.config == odometry_flow(estimator.spec_config())
            &&& scene.candidate == candidate_pose
        }),
{
}

} // verus!
