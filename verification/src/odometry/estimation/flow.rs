//! The flow of tracking a frame against the map: match by projection, solve PnP, fall back
//! to the reference keyframe, refine with the local map.

use super::matching::{
    can_search, is_frame_match, is_projection_match, match_by_projection, match_map_to_frame,
    CellWindow, KeypointGrid, ProjectionMatchConfig, Searcher,
};
use super::pnp::{is_pnp_of_pairs, solve_pnp_from_correspondences};
use crate::descriptor::{can_match, match_orb, orb_matches};
use crate::estimation::pnp::PnpLimits;
use crate::estimation::Estimate;
use crate::mapping::local_map::{frame_idx, is_local_map};
use crate::mapping::map::{position_of, Keyframe, MapPoint, SlamMap};
use kornia_3d::camera::PinholeCamera;
use kornia_3d::pose::Pose3d;
use kornia_algebra::Vec2F32;
use kornia_image::ImageSize;
use kornia_imgproc::features::{OrbFeatures, OrbMatchConfig};
use vstd::prelude::*;

verus! {

/// Fewest correspondences that are worth a PnP attempt.
pub const MIN_PNP_CORRESPONDENCES: usize = 4;

/// Fewest inliers with which a first pose is accepted.
pub const MIN_STAGE1_INLIERS: usize = 10;

/// Fewest matches with the reference keyframe that are worth a PnP attempt.
pub const MIN_REF_MATCHES: usize = 15;

/// Rejection reasons specific to the map-projection tracker.
#[derive(Debug, Clone, Copy, PartialEq, Eq, Hash)]
pub enum EstimationRejectReason {
    /// Too few projection-guided matches were available to run the first PnP stage.
    LowProjectionMatches,
    /// PnP solving failed for the provided correspondences.
    PnpFailed,
    /// PnP solved, but the pose is too far from the predicted one.
    PnpInconsistentMotion,
    /// PnP solved, but too few final inliers remained after validation.
    LowPnpInliers,
    /// Too few descriptor matches were found against the current reference keyframe.
    LowReferenceMatches,
    /// Too few valid 3D-2D correspondences could be built from reference matches.
    LowReferenceCorrespondences,
}

/// What tracking reads of the current frame.
pub struct FrameView<'a> {
    /// The camera that took it.
    pub camera: &'a PinholeCamera,
    /// Its dimensions.
    pub image_size: ImageSize,
    /// Its features.
    pub features: &'a OrbFeatures,
    /// Their keypoints, undistorted.
    pub keypoints: &'a [Vec2F32],
    /// Their descriptors.
    pub descriptors: &'a [[u8; 32]],
    /// The grid over the keypoints.
    pub grid: &'a KeypointGrid,
}

/// Thresholds of the tracking flow.
#[derive(Debug, Clone, Copy)]
pub struct FlowConfig {
    /// Descriptor matcher settings for tracking against the reference keyframe.
    pub match_config: OrbMatchConfig,
    /// Reprojection errors that PnP accepts.
    pub limits: PnpLimits,
    /// Minimum number of correspondences required for PnP solving.
    pub min_correspondences: usize,
    /// Minimum inliers to accept the pose that the local map gives.
    pub min_inliers: usize,
    /// Projection matching config for initial tracking.
    pub projection: ProjectionMatchConfig,
    /// Projection matching config for local-map refinement.
    pub local_projection: ProjectionMatchConfig,
}

/// All that tracking one frame depends on, apart from thresholds in pixels.
pub struct Scene {
    pub map: SlamMap,
    pub camera: PinholeCamera,
    pub image_size: ImageSize,
    pub features: OrbFeatures,
    pub keypoints: Seq<Vec2F32>,
    pub descriptors: Seq<[u8; 32]>,
    pub grid: KeypointGrid,
    /// Frame index of the reference keyframe, where there is one.
    pub current: Option<usize>,
    pub config: FlowConfig,
    /// The predicted pose.
    pub candidate: Pose3d,
}

/// Whether a step from the first pose to the second was said to be plausible.
pub type Plausibility = spec_fn(Pose3d, Pose3d, bool) -> bool;

/// What tracking comes to: the pose, its inliers and its matches, or why there is none.
pub type Outcome = Result<(Pose3d, usize, Seq<(usize, usize)>), EstimationRejectReason>;

/// The keyframe with frame index `current`, if the map has one.
pub open spec fn reference_keyframe(map: SlamMap, current: Option<usize>) -> Option<Keyframe> {
    match current {
        None => None,
        Some(idx) => if position_of(map.kfs(), idx) < map.kfs().len() {
            Some(map.kfs()[position_of(map.kfs(), idx)])
        } else {
            None
        },
    }
}

/// Frame index of the reference keyframe, if the map has it.
pub open spec fn reference_idx(map: SlamMap, current: Option<usize>) -> Option<usize> {
    match reference_keyframe(map, current) {
        None => None,
        Some(kf) => Some(kf.frame.idx),
    }
}

/// The matches with points of the local map, each named by the index at the same place. These
/// are the indices of the points in the map where no point of the selection is culled: only
/// there are points and indices in step.
pub open spec fn to_global(
    local_to_global: Seq<usize>,
    matches: Seq<(usize, usize)>,
) -> Seq<(usize, usize)>
    decreases matches.len(),
{
    if matches.len() == 0 {
        Seq::empty()
    } else {
        let head = to_global(local_to_global, matches.drop_last());
        let (local, kp) = matches.last();
        if local < local_to_global.len() {
            head.push((local_to_global[local as int], kp))
        } else {
            head
        }
    }
}

/// The correspondences that matches with a keyframe give: those whose descriptor in the
/// keyframe has a map point.
pub open spec fn through_keyframe(
    slots: Seq<Option<usize>>,
    n_points: nat,
    matches: Seq<(usize, usize)>,
) -> Seq<(usize, usize)>
    decreases matches.len(),
{
    if matches.len() == 0 {
        Seq::empty()
    } else {
        let head = through_keyframe(slots, n_points, matches.drop_last());
        let (d, kp) = matches.last();
        if d < slots.len() && slots[d as int] is Some && slots[d as int]->0 < n_points {
            head.push((slots[d as int]->0, kp))
        } else {
            head
        }
    }
}

/// `answer` is what the local map gives, starting from the matches and the pose so far.
pub open spec fn is_local_refinement<C, W>(
    scene: Scene,
    searcher: Searcher<C, W>,
    matches: Seq<(usize, usize)>,
    pose_init: Pose3d,
    answer: Option<(Pose3d, usize, Seq<(usize, usize)>)>,
) -> bool where
    C: Fn(&Vec2F32) -> (usize, usize),
    W: Fn(&Vec2F32, &Vec2F32) -> CellWindow,
 {
    exists|points: Seq<MapPoint>, indices: Seq<usize>|
        {
            &&& #[trigger] is_local_map(
                scene.map,
                matches,
                reference_idx(scene.map, scene.current),
                points,
                indices,
            )
            &&& if points.len() < MIN_PNP_CORRESPONDENCES {
                answer is None
            } else {
                exists|local: Seq<(usize, usize)>|
                    {
                        &&& #[trigger] is_projection_match(
                            searcher,
                            scene.camera,
                            scene.image_size,
                            points,
                            scene.keypoints,
                            scene.descriptors,
                            scene.grid,
                            pose_init,
                            scene.config.local_projection,
                            local,
                        )
                        &&& is_local_solution(
                            scene,
                            local,
                            to_global(indices, local),
                            pose_init,
                            answer,
                        )
                    }
            }
        }
}

/// `answer` is what PnP makes of the matches with the local map.
pub open spec fn is_local_solution(
    scene: Scene,
    local: Seq<(usize, usize)>,
    global: Seq<(usize, usize)>,
    pose_init: Pose3d,
    answer: Option<(Pose3d, usize, Seq<(usize, usize)>)>,
) -> bool {
    if local.len() < MIN_PNP_CORRESPONDENCES || global.len() < MIN_PNP_CORRESPONDENCES {
        answer is None
    } else {
        exists|solved: Option<(Pose3d, usize)>|
            {
                &&& #[trigger] is_pnp_of_pairs(
                    scene.camera,
                    scene.config.limits,
                    scene.map.pts(),
                    global,
                    scene.keypoints,
                    pose_init,
                    scene.config.min_correspondences,
                    solved,
                )
                &&& answer == match solved {
                    None => None,
                    Some((pose, inliers)) => Some((pose, inliers, global)),
                }
            }
    }
}

/// `answer` is the estimate after refinement: the matches are those with the local map where
/// it gives any, and so is the pose, where it has enough inliers and is plausible.
pub open spec fn is_refinement<C, W>(
    scene: Scene,
    searcher: Searcher<C, W>,
    plausible: Plausibility,
    pose: Pose3d,
    inliers: usize,
    matches: Seq<(usize, usize)>,
    answer: (Pose3d, usize, Seq<(usize, usize)>),
) -> bool where
    C: Fn(&Vec2F32) -> (usize, usize),
    W: Fn(&Vec2F32, &Vec2F32) -> CellWindow,
 {
    exists|local: Option<(Pose3d, usize, Seq<(usize, usize)>)>|
        {
            &&& #[trigger] is_local_refinement(scene, searcher, matches, pose, local)
            &&& match local {
                None => answer == (pose, inliers, matches),
                Some((local_pose, local_inliers, local_matches)) => {
                    ||| local_inliers < scene.config.min_inliers && answer == (
                        pose,
                        inliers,
                        local_matches,
                    )
                    ||| local_inliers >= scene.config.min_inliers && plausible(
                        scene.candidate,
                        local_pose,
                        false,
                    ) && answer == (pose, inliers, local_matches)
                    ||| local_inliers >= scene.config.min_inliers && plausible(
                        scene.candidate,
                        local_pose,
                        true,
                    ) && answer == (local_pose, local_inliers, local_matches)
                },
            }
        }
}

/// `outcome` is what tracking with given correspondences comes to.
pub open spec fn is_attempt<C, W>(
    scene: Scene,
    searcher: Searcher<C, W>,
    plausible: Plausibility,
    correspondences: Seq<(usize, usize)>,
    pose_init: Pose3d,
    outcome: Outcome,
) -> bool where
    C: Fn(&Vec2F32) -> (usize, usize),
    W: Fn(&Vec2F32, &Vec2F32) -> CellWindow,
 {
    exists|solved: Option<(Pose3d, usize)>|
        {
            &&& #[trigger] is_pnp_of_pairs(
                scene.camera,
                scene.config.limits,
                scene.map.pts(),
                correspondences,
                scene.keypoints,
                pose_init,
                scene.config.min_correspondences,
                solved,
            )
            &&& match solved {
                None => outcome == Outcome::Err(EstimationRejectReason::PnpFailed),
                Some((pose, inliers)) => {
                    ||| inliers < MIN_STAGE1_INLIERS && outcome == Outcome::Err(
                        EstimationRejectReason::LowPnpInliers,
                    )
                    ||| inliers >= MIN_STAGE1_INLIERS && plausible(scene.candidate, pose, false)
                        && outcome == Outcome::Err(EstimationRejectReason::PnpInconsistentMotion)
                    ||| inliers >= MIN_STAGE1_INLIERS && plausible(scene.candidate, pose, true)
                        && outcome is Ok && is_refinement(
                        scene,
                        searcher,
                        plausible,
                        pose,
                        inliers,
                        correspondences,
                        outcome->Ok_0,
                    )
                },
            }
        }
}

/// `outcome` is what the reference keyframe gives after tracking failed for `reason`.
pub open spec fn is_fallback<C, W>(
    scene: Scene,
    searcher: Searcher<C, W>,
    plausible: Plausibility,
    pose_before: Pose3d,
    reason: EstimationRejectReason,
    outcome: Outcome,
) -> bool where
    C: Fn(&Vec2F32) -> (usize, usize),
    W: Fn(&Vec2F32, &Vec2F32) -> CellWindow,
 {
    match reference_keyframe(scene.map, scene.current) {
        None => outcome == Outcome::Err(reason),
        Some(kf) => {
            let matches = orb_matches(
                kf.frame.features,
                scene.features,
                scene.config.match_config,
            );
            let pairs = through_keyframe(
                kf.map_point_by_desc_idx@,
                scene.map.pts().len(),
                matches,
            );
            if matches.len() < MIN_REF_MATCHES {
                outcome == Outcome::Err(EstimationRejectReason::LowReferenceMatches)
            } else if pairs.len() < MIN_PNP_CORRESPONDENCES {
                outcome == Outcome::Err(EstimationRejectReason::LowReferenceCorrespondences)
            } else {
                is_attempt(scene, searcher, plausible, pairs, pose_before, outcome)
            }
        },
    }
}

/// `outcome` is what tracking a frame comes to: first with the matches by projection, then,
/// where that fails, with the reference keyframe.
pub open spec fn is_outcome<C, W>(
    scene: Scene,
    searcher: Searcher<C, W>,
    plausible: Plausibility,
    pose_before: Pose3d,
    outcome: Outcome,
) -> bool where
    C: Fn(&Vec2F32) -> (usize, usize),
    W: Fn(&Vec2F32, &Vec2F32) -> CellWindow,
 {
    exists|matches: Seq<(usize, usize)>|
        {
            &&& #[trigger] is_frame_match(
                searcher,
                scene.camera,
                scene.image_size,
                scene.map.pts(),
                scene.keypoints,
                scene.descriptors,
                scene.grid,
                scene.candidate,
                scene.config.projection,
                matches,
            )
            &&& if matches.len() < MIN_PNP_CORRESPONDENCES {
                is_fallback(
                    scene,
                    searcher,
                    plausible,
                    pose_before,
                    EstimationRejectReason::LowProjectionMatches,
                    outcome,
                )
            } else {
                exists|first: Outcome|
                    {
                        &&& #[trigger] is_attempt(
                            scene,
                            searcher,
                            plausible,
                            matches,
                            scene.candidate,
                            first,
                        )
                        &&& match first {
                            Ok(_) => outcome == first,
                            Err(reason) => is_fallback(
                                scene,
                                searcher,
                                plausible,
                                pose_before,
                                reason,
                                outcome,
                            ),
                        }
                    }
            }
        }
}

/// The estimate as the outcome names it.
pub open spec fn outcome_of(result: Result<Estimate, EstimationRejectReason>) -> Outcome {
    match result {
        Ok(estimate) => Ok((estimate.pose, estimate.inliers, estimate.matches@)),
        Err(reason) => Err(reason),
    }
}

/// The scene is the one that the arguments make up, and its grid can be searched.
pub open spec fn is_scene(
    scene: Scene,
    map: SlamMap,
    view: FrameView<'_>,
    current: Option<usize>,
    config: FlowConfig,
    candidate: Pose3d,
) -> bool {
    &&& scene.map == map
    &&& scene.camera == *view.camera
    &&& scene.image_size == view.image_size
    &&& scene.features == *view.features
    &&& scene.keypoints == view.keypoints@
    &&& scene.descriptors == view.descriptors@
    &&& scene.grid == *view.grid
    &&& scene.current == current
    &&& scene.config == config
    &&& scene.candidate == candidate
    &&& searchable(view)
}

/// The descriptors of the reference keyframe, where there is one, can be matched with those
/// of the frame.
pub open spec fn can_fall_back(
    map: SlamMap,
    current: Option<usize>,
    features: OrbFeatures,
    match_config: OrbMatchConfig,
) -> bool {
    reference_keyframe(map, current) is Some ==> can_match(
        reference_keyframe(map, current)->0.frame.features,
        features,
        match_config,
    )
}

/// The grid over the keypoints can be searched, and each of them has a descriptor.
pub open spec fn searchable(view: FrameView<'_>) -> bool {
    &&& view.grid.wf()
    &&& view.grid.cols() > 0
    &&& view.grid.rows() > 0
    &&& view.grid.holds_below(view.keypoints@.len())
    &&& view.keypoints@.len() <= view.descriptors@.len()
}

fn globalize(local_to_global: &Vec<usize>, matches: &Vec<(usize, usize)>) -> (global: Vec<
    (usize, usize),
>)
    ensures
        global@ == to_global(local_to_global@, matches@),
{
    let mut global: Vec<(usize, usize)> = Vec::new();
    let mut i: usize = 0;
    assert(matches@.take(0) =~= Seq::empty());
    while i < matches.len()
        invariant
            i <= matches@.len(),
            global@ == to_global(local_to_global@, matches@.take(i as int)),
        decreases matches@.len() - i,
    {
        assert(matches@.take(i + 1).drop_last() =~= matches@.take(i as int));
        let (local, kp) = matches[i];
        if local < local_to_global.len() {
            global.push((local_to_global[local], kp));
        }
        i += 1;
    }
    assert(matches@.take(i as int) =~= matches@);
    global
}

/// The correspondences that matches with a keyframe give, where `slots` are the map points of
/// its descriptors.
pub fn reference_correspondences(
    slots: &Vec<Option<usize>>,
    n_points: usize,
    matches: &Vec<(usize, usize)>,
) -> (pairs: Vec<(usize, usize)>)
    ensures
        pairs@ == through_keyframe(slots@, n_points as nat, matches@),
{
    let mut pairs: Vec<(usize, usize)> = Vec::new();
    let mut i: usize = 0;
    assert(matches@.take(0) =~= Seq::empty());
    while i < matches.len()
        invariant
            i <= matches@.len(),
            pairs@ == through_keyframe(slots@, n_points as nat, matches@.take(i as int)),
        decreases matches@.len() - i,
    {
        assert(matches@.take(i + 1).drop_last() =~= matches@.take(i as int));
        let (d, kp) = matches[i];
        if d < slots.len() {
            if let Some(mp_idx) = slots[d] {
                if mp_idx < n_points {
                    pairs.push((mp_idx, kp));
                }
            }
        }
        i += 1;
    }
    assert(matches@.take(i as int) =~= matches@);
    pairs
}

/// The reference keyframe, if the map has it.
fn find_reference(map: &SlamMap, current: Option<usize>) -> (found: Option<&Keyframe>)
    ensures
        match found {
            Some(kf) => reference_keyframe(*map, current) == Some(*kf),
            None => reference_keyframe(*map, current) is None,
        },
        frame_idx(found) == reference_idx(*map, current),
{
    match current {
        None => None,
        Some(idx) => map.get_keyframe(idx),
    }
}

fn refine_with_local_map<C, W>(
    map: &SlamMap,
    view: &FrameView<'_>,
    current: Option<usize>,
    config: FlowConfig,
    searcher: &Searcher<C, W>,
    matches: &Vec<(usize, usize)>,
    pose_init: &Pose3d,
    Ghost(scene): Ghost<Scene>,
) -> (answer: Option<Estimate>) where
    C: Fn(&Vec2F32) -> (usize, usize),
    W: Fn(&Vec2F32, &Vec2F32) -> CellWindow,

    requires
        is_scene(scene, *map, *view, current, config, scene.candidate),
        can_search(*searcher),
    ensures
        is_local_refinement(
            scene,
            *searcher,
            matches@,
            *pose_init,
            match answer {
                None => None,
                Some(estimate) => Some((estimate.pose, estimate.inliers, estimate.matches@)),
            },
        ),
{
    let reference = find_reference(map, current);
    let (points, indices) = map.build_local_map_points(matches.as_slice(), reference);
    if points.len() < MIN_PNP_CORRESPONDENCES {
        return None;
    }
    let local = match_by_projection(
        searcher,
        view.camera,
        view.image_size,
        points.as_slice(),
        view.keypoints,
        view.descriptors,
        view.grid,
        pose_init,
        config.local_projection,
    );
    let global = globalize(&indices, &local);
    if local.len() < MIN_PNP_CORRESPONDENCES || global.len() < MIN_PNP_CORRESPONDENCES {
        assert(is_local_solution(scene, local@, global@, *pose_init, None));
        return None;
    }
    let solved = solve_pnp_from_correspondences(
        view.camera,
        map.map_points(),
        global.as_slice(),
        view.keypoints,
        pose_init,
        config.limits,
        config.min_correspondences,
    );
    let ghost answer = match solved {
        None => None,
        Some((pose, inliers)) => Some((pose, inliers, global@)),
    };
    assert(is_local_solution(scene, local@, global@, *pose_init, answer));
    match solved {
        None => None,
        Some((pose, inliers)) => Some(Estimate { pose, inliers, matches: global }),
    }
}

/// Tracks with given correspondences, and refines the pose with the local map.
fn try_track<C, W, N>(
    map: &SlamMap,
    view: &FrameView<'_>,
    current: Option<usize>,
    config: FlowConfig,
    candidate: &Pose3d,
    searcher: &Searcher<C, W>,
    is_plausible: &N,
    correspondences: Vec<(usize, usize)>,
    pose_init: &Pose3d,
    Ghost(scene): Ghost<Scene>,
    Ghost(plausible): Ghost<Plausibility>,
) -> (result: Result<Estimate, EstimationRejectReason>) where
    C: Fn(&Vec2F32) -> (usize, usize),
    W: Fn(&Vec2F32, &Vec2F32) -> CellWindow,
    N: Fn(&Pose3d, &Pose3d) -> bool,

    requires
        is_scene(scene, *map, *view, current, config, *candidate),
        can_search(*searcher),
        forall|from: &Pose3d, to: &Pose3d| call_requires(*is_plausible, (from, to)),
        forall|from: &Pose3d, to: &Pose3d, said: bool|
            call_ensures(*is_plausible, (from, to), said) ==> plausible(*from, *to, said),
    ensures
        is_attempt(
            scene,
            *searcher,
            plausible,
            correspondences@,
            *pose_init,
            outcome_of(result),
        ),
{
    let solved = solve_pnp_from_correspondences(
        view.camera,
        map.map_points(),
        correspondences.as_slice(),
        view.keypoints,
        pose_init,
        config.limits,
        config.min_correspondences,
    );
    let (pose, inliers) = match solved {
        None => {
            return Err(EstimationRejectReason::PnpFailed);
        },
        Some(found) => found,
    };
    if inliers < MIN_STAGE1_INLIERS {
        return Err(EstimationRejectReason::LowPnpInliers);
    }
    if !is_plausible(candidate, &pose) {
        return Err(EstimationRejectReason::PnpInconsistentMotion);
    }
    let local = refine_with_local_map(
        map,
        view,
        current,
        config,
        searcher,
        &correspondences,
        &pose,
        Ghost(scene),
    );
    let estimate = match local {
        None => Estimate { pose, inliers, matches: correspondences },
        Some(local) => if local.inliers >= config.min_inliers && is_plausible(
            candidate,
            &local.pose,
        ) {
            local
        } else {
            Estimate { pose, inliers, matches: local.matches }
        },
    };
    assert(is_refinement(
        scene,
        *searcher,
        plausible,
        pose,
        inliers,
        correspondences@,
        (estimate.pose, estimate.inliers, estimate.matches@),
    ));
    Ok(estimate)
}

/// Tracks a frame against the map.
///
/// `is_plausible` tells whether a pose can follow the predicted one.
pub(crate) fn track_frame<C, W, N>(
    map: &SlamMap,
    view: &FrameView<'_>,
    current: Option<usize>,
    config: FlowConfig,
    candidate: &Pose3d,
    pose_before: &Pose3d,
    searcher: &Searcher<C, W>,
    is_plausible: &N,
    Ghost(scene): Ghost<Scene>,
    Ghost(plausible): Ghost<Plausibility>,
) -> (result: Result<Estimate, EstimationRejectReason>) where
    C: Fn(&Vec2F32) -> (usize, usize),
    W: Fn(&Vec2F32, &Vec2F32) -> CellWindow,
    N: Fn(&Pose3d, &Pose3d) -> bool,

    requires
        is_scene(scene, *map, *view, current, config, *candidate),
        can_fall_back(*map, current, *view.features, config.match_config),
        can_search(*searcher),
        forall|from: &Pose3d, to: &Pose3d| call_requires(*is_plausible, (from, to)),
        forall|from: &Pose3d, to: &Pose3d, said: bool|
            call_ensures(*is_plausible, (from, to), said) ==> plausible(*from, *to, said),
    ensures
        is_outcome(
            scene,
            *searcher,
            plausible,
            *pose_before,
            outcome_of(result),
        ),
{
    let matches = match_map_to_frame(
        searcher,
        view.camera,
        view.image_size,
        map.map_points(),
        view.keypoints,
        view.descriptors,
        view.grid,
        candidate,
        config.projection,
    );
    let ghost by_projection = matches@;
    let ghost mut first: Outcome = Err(EstimationRejectReason::LowProjectionMatches);
    let reason = if matches.len() >= MIN_PNP_CORRESPONDENCES {
        let attempt = try_track(
            map,
            view,
            current,
            config,
            candidate,
            searcher,
            is_plausible,
            matches,
            candidate,
            Ghost(scene),
            Ghost(plausible),
        );
        proof {
            first = outcome_of(attempt);
            assert(is_attempt(
                scene,
                *searcher,
                plausible,
                by_projection,
                scene.candidate,
                first,
            ));
        }
        match attempt {
            Ok(estimate) => {
                return Ok(estimate);
            },
            Err(reason) => reason,
        }
    } else {
        EstimationRejectReason::LowProjectionMatches
    };
    let result = fall_back(
        map,
        view,
        current,
        config,
        candidate,
        pose_before,
        searcher,
        is_plausible,
        reason,
        Ghost(scene),
        Ghost(plausible),
    );
    assert(is_frame_match(
        *searcher,
        scene.camera,
        scene.image_size,
        scene.map.pts(),
        scene.keypoints,
        scene.descriptors,
        scene.grid,
        scene.candidate,
        scene.config.projection,
        by_projection,
    ));
    result
}

fn fall_back<C, W, N>(
    map: &SlamMap,
    view: &FrameView<'_>,
    current: Option<usize>,
    config: FlowConfig,
    candidate: &Pose3d,
    pose_before: &Pose3d,
    searcher: &Searcher<C, W>,
    is_plausible: &N,
    reason: EstimationRejectReason,
    Ghost(scene): Ghost<Scene>,
    Ghost(plausible): Ghost<Plausibility>,
) -> (result: Result<Estimate, EstimationRejectReason>) where
    C: Fn(&Vec2F32) -> (usize, usize),
    W: Fn(&Vec2F32, &Vec2F32) -> CellWindow,
    N: Fn(&Pose3d, &Pose3d) -> bool,

    requires
        is_scene(scene, *map, *view, current, config, *candidate),
        can_fall_back(*map, current, *view.features, config.match_config),
        can_search(*searcher),
        forall|from: &Pose3d, to: &Pose3d| call_requires(*is_plausible, (from, to)),
        forall|from: &Pose3d, to: &Pose3d, said: bool|
            call_ensures(*is_plausible, (from, to), said) ==> plausible(*from, *to, said),
    ensures
        is_fallback(
            scene,
            *searcher,
            plausible,
            *pose_before,
            reason,
            outcome_of(result),
        ),
{
    let kf = match find_reference(map, current) {
        None => {
            return Err(reason);
        },
        Some(kf) => kf,
    };
    let matches = match_orb(&kf.frame.features, view.features, &config.match_config);
    if matches.len() < MIN_REF_MATCHES {
        return Err(EstimationRejectReason::LowReferenceMatches);
    }
    let pairs = reference_correspondences(
        &kf.map_point_by_desc_idx,
        map.map_points().len(),
        &matches,
    );
    if pairs.len() < MIN_PNP_CORRESPONDENCES {
        return Err(EstimationRejectReason::LowReferenceCorrespondences);
    }
    try_track(
        map,
        view,
        current,
        config,
        candidate,
        searcher,
        is_plausible,
        pairs,
        pose_before,
        Ghost(scene),
        Ghost(plausible),
    )
}

/// Tracking succeeds only with enough inliers: those that a first pose needs, or those that
/// a pose from the local map needs.
pub proof fn lemma_enough_inliers<C, W>(
    scene: Scene,
    searcher: Searcher<C, W>,
    plausible: Plausibility,
    pose_before: Pose3d,
    outcome: Outcome,
) where
    C: Fn(&Vec2F32) -> (usize, usize),
    W: Fn(&Vec2F32, &Vec2F32) -> CellWindow,

    requires
        is_outcome(
            scene,
            searcher,
            plausible,
            pose_before,
            outcome,
        ),
        outcome is Ok,
    ensures
        outcome->Ok_0.1 >= MIN_STAGE1_INLIERS || outcome->Ok_0.1 >= scene.config.min_inliers,
{
}

/// Where nothing that is said of a step is ever against it, motion is never the reason why
/// tracking failed.
pub proof fn lemma_motion_never_the_reason<C, W>(
    scene: Scene,
    searcher: Searcher<C, W>,
    plausible: Plausibility,
    pose_before: Pose3d,
    outcome: Outcome,
) where
    C: Fn(&Vec2F32) -> (usize, usize),
    W: Fn(&Vec2F32, &Vec2F32) -> CellWindow,

    requires
        is_outcome(
            scene,
            searcher,
            plausible,
            pose_before,
            outcome,
        ),
        forall|from: Pose3d, to: Pose3d| !#[trigger] plausible(from, to, false),
    ensures
        outcome != Outcome::Err(EstimationRejectReason::PnpInconsistentMotion),
{
}

/// Against an empty map and without a reference keyframe, there is nothing to track.
pub proof fn lemma_nothing_to_track<C, W>(
    scene: Scene,
    searcher: Searcher<C, W>,
    plausible: Plausibility,
    pose_before: Pose3d,
    outcome: Outcome,
) where
    C: Fn(&Vec2F32) -> (usize, usize),
    W: Fn(&Vec2F32, &Vec2F32) -> CellWindow,

    requires
        is_outcome(
            scene,
            searcher,
            plausible,
            pose_before,
            outcome,
        ),
        scene.map.pts().len() == 0,
        scene.current is None,
    ensures
        outcome == Outcome::Err(EstimationRejectReason::LowProjectionMatches),
{
}

proof fn lemma_to_global(local_to_global: Seq<usize>, matches: Seq<(usize, usize)>, n: nat)
    requires
        forall|i: int| 0 <= i < local_to_global.len() ==> #[trigger] local_to_global[i] < n,
    ensures
        forall|j: int|
            0 <= j < to_global(local_to_global, matches).len() ==> (#[trigger] to_global(
                local_to_global,
                matches,
            )[j]).0 < n,
    decreases matches.len(),
{
    if matches.len() > 0 {
        lemma_to_global(local_to_global, matches.drop_last(), n);
        let head = to_global(local_to_global, matches.drop_last());
        let all = to_global(local_to_global, matches);
        assert forall|j: int| 0 <= j < all.len() implies (#[trigger] all[j]).0 < n by {
            if j < head.len() {
                assert(all[j] == head[j]);
            }
        }
    }
}

proof fn lemma_through_keyframe(
    slots: Seq<Option<usize>>,
    n_points: nat,
    matches: Seq<(usize, usize)>,
)
    ensures
        forall|j: int|
            0 <= j < through_keyframe(slots, n_points, matches).len() ==> (
            #[trigger] through_keyframe(slots, n_points, matches)[j]).0 < n_points,
    decreases matches.len(),
{
    if matches.len() > 0 {
        lemma_through_keyframe(slots, n_points, matches.drop_last());
        let head = through_keyframe(slots, n_points, matches.drop_last());
        let all = through_keyframe(slots, n_points, matches);
        assert forall|j: int| 0 <= j < all.len() implies (#[trigger] all[j]).0 < n_points by {
            if j < head.len() {
                assert(all[j] == head[j]);
            }
        }
    }
}

/// Every match names a map point.
pub open spec fn names_map_points(matches: Seq<(usize, usize)>, n: nat) -> bool {
    forall|j: int| 0 <= j < matches.len() ==> (#[trigger] matches[j]).0 < n
}

proof fn lemma_attempt_names_map_points<C, W>(
    scene: Scene,
    searcher: Searcher<C, W>,
    plausible: Plausibility,
    correspondences: Seq<(usize, usize)>,
    pose_init: Pose3d,
    outcome: Outcome,
) where
    C: Fn(&Vec2F32) -> (usize, usize),
    W: Fn(&Vec2F32, &Vec2F32) -> CellWindow,

    requires
        is_attempt(scene, searcher, plausible, correspondences, pose_init, outcome),
        names_map_points(correspondences, scene.map.pts().len()),
        scene.map.pts().len() <= usize::MAX,
        outcome is Ok,
    ensures
        names_map_points(outcome->Ok_0.2, scene.map.pts().len()),
{
    let n = scene.map.pts().len();
    let (pose, inliers) = choose|pose: Pose3d, inliers: usize| #[trigger]
        is_refinement(
            scene,
            searcher,
            plausible,
            pose,
            inliers,
            correspondences,
            outcome->Ok_0,
        );
    let local = choose|local: Option<(Pose3d, usize, Seq<(usize, usize)>)>|
        {
            &&& #[trigger] is_local_refinement(
                scene,
                searcher,
                correspondences,
                pose,
                local,
            )
            &&& match local {
                None => outcome->Ok_0.2 == correspondences,
                Some((_, _, matches)) => outcome->Ok_0.2 == matches,
            }
        };
    if local is Some {
        let (points, indices) = choose|points: Seq<MapPoint>, indices: Seq<usize>|
            {
                &&& #[trigger] is_local_map(
                    scene.map,
                    correspondences,
                    reference_idx(scene.map, scene.current),
                    points,
                    indices,
                )
                &&& exists|matches: Seq<(usize, usize)>| #[trigger]
                    is_local_solution(
                        scene,
                        matches,
                        to_global(indices, matches),
                        pose,
                        local,
                    )
            };
        let matches = choose|matches: Seq<(usize, usize)>| #[trigger]
            is_local_solution(
                scene,
                matches,
                to_global(indices, matches),
                pose,
                local,
            );
        crate::mapping::local_map::lemma_local_map_indices(
            scene.map,
            correspondences,
            reference_idx(scene.map, scene.current),
            points,
            indices,
        );
        lemma_to_global(indices, matches, n);
        assert(outcome->Ok_0.2 == to_global(indices, matches));
    }
}

/// The matches of an estimate name points of the map.
pub proof fn lemma_estimate_names_map_points<C, W>(
    scene: Scene,
    searcher: Searcher<C, W>,
    plausible: Plausibility,
    pose_before: Pose3d,
    outcome: Outcome,
) where
    C: Fn(&Vec2F32) -> (usize, usize),
    W: Fn(&Vec2F32, &Vec2F32) -> CellWindow,

    requires
        is_outcome(
            scene,
            searcher,
            plausible,
            pose_before,
            outcome,
        ),
        scene.map.pts().len() <= usize::MAX,
        outcome is Ok,
    ensures
        names_map_points(outcome->Ok_0.2, scene.map.pts().len()),
{
    let n = scene.map.pts().len();
    assert forall|matches: Seq<(usize, usize)>| #[trigger]
        is_frame_match(
            searcher,
            scene.camera,
            scene.image_size,
            scene.map.pts(),
            scene.keypoints,
            scene.descriptors,
            scene.grid,
            scene.candidate,
            scene.config.projection,
            matches,
        ) implies names_map_points(matches, n) by {
        let config = choose|config: ProjectionMatchConfig| #[trigger]
            is_projection_match(
                searcher,
                scene.camera,
                scene.image_size,
                scene.map.pts(),
                scene.keypoints,
                scene.descriptors,
                scene.grid,
                scene.candidate,
                config,
                matches,
            );
        super::matching::lemma_projection_match_is_one_to_one(
            searcher,
            scene.camera,
            scene.image_size,
            scene.map.pts(),
            scene.keypoints,
            scene.descriptors,
            scene.grid,
            scene.candidate,
            config,
            matches,
        );
    }
    assert forall|pairs: Seq<(usize, usize)>, pose_init: Pose3d|
        names_map_points(pairs, n) && #[trigger] is_attempt(
            scene,
            searcher,
            plausible,
            pairs,
            pose_init,
            outcome,
        ) implies names_map_points(outcome->Ok_0.2, n) by {
        lemma_attempt_names_map_points(
            scene,
            searcher,
            plausible,
            pairs,
            pose_init,
            outcome,
        );
    }
    assert forall|kf: Keyframe, matches: Seq<(usize, usize)>| names_map_points(
        #[trigger] through_keyframe(kf.map_point_by_desc_idx@, n, matches),
        n,
    ) by {
        lemma_through_keyframe(kf.map_point_by_desc_idx@, n, matches);
    }
}

/// The matches with points of the local map whose index there is one are named by that index,
/// with the same keypoints and in the same order; the others are left out.
pub proof fn lemma_globalized(local_to_global: Seq<usize>, matches: Seq<(usize, usize)>)
    ensures
        to_global(local_to_global, matches) == matches.filter(
            |c: (usize, usize)| c.0 < local_to_global.len(),
        ).map_values(|c: (usize, usize)| (local_to_global[c.0 as int], c.1)),
    decreases matches.len(),
{
    reveal(Seq::filter);
    let keep = |c: (usize, usize)| c.0 < local_to_global.len();
    let name = |c: (usize, usize)| (local_to_global[c.0 as int], c.1);
    if matches.len() > 0 {
        lemma_globalized(local_to_global, matches.drop_last());
    }
    assert(to_global(local_to_global, matches) =~= matches.filter(keep).map_values(name));
}

/// The matches with descriptors of the keyframe that have a map point become correspondences of
/// that point with the same keypoints, in the same order; the others are left out.
pub proof fn lemma_reference_pairs(
    slots: Seq<Option<usize>>,
    n_points: nat,
    matches: Seq<(usize, usize)>,
)
    ensures
        through_keyframe(slots, n_points, matches) == matches.filter(
            |c: (usize, usize)|
                c.0 < slots.len() && slots[c.0 as int] is Some && slots[c.0 as int]->0 < n_points,
        ).map_values(|c: (usize, usize)| (slots[c.0 as int]->0, c.1)),
    decreases matches.len(),
{
    reveal(Seq::filter);
    let keep = |c: (usize, usize)|
        c.0 < slots.len() && slots[c.0 as int] is Some && slots[c.0 as int]->0 < n_points;
    let name = |c: (usize, usize)| (slots[c.0 as int]->0, c.1);
    if matches.len() > 0 {
        lemma_reference_pairs(slots, n_points, matches.drop_last());
    }
    assert(through_keyframe(slots, n_points, matches) =~= matches.filter(keep).map_values(name));
}

/// `pose` and `inliers` are what PnP gives for some correspondences of map points, from a pose to
/// start with.
pub open spec fn is_solved_pose(scene: Scene, pose: Pose3d, inliers: usize) -> bool {
    exists|pairs: Seq<(usize, usize)>, pose_init: Pose3d| #[trigger]
        is_pnp_of_pairs(
            scene.camera,
            scene.config.limits,
            scene.map.pts(),
            pairs,
            scene.keypoints,
            pose_init,
            scene.config.min_correspondences,
            Some((pose, inliers)),
        )
}

/// Refinement keeps the pose and its inliers, or replaces both by those that PnP gives, from
/// that pose, for the matches that it returns: where these have enough inliers and the step
/// from the predicted pose is said to be plausible.
pub proof fn lemma_refinement<C, W>(
    scene: Scene,
    searcher: Searcher<C, W>,
    plausible: Plausibility,
    pose: Pose3d,
    inliers: usize,
    matches: Seq<(usize, usize)>,
    answer: (Pose3d, usize, Seq<(usize, usize)>),
) where
    C: Fn(&Vec2F32) -> (usize, usize),
    W: Fn(&Vec2F32, &Vec2F32) -> CellWindow,

    requires
        is_refinement(scene, searcher, plausible, pose, inliers, matches, answer),
    ensures
        (answer.0 == pose && answer.1 == inliers) || {
            &&& answer.1 >= scene.config.min_inliers
            &&& plausible(scene.candidate, answer.0, true)
            &&& is_pnp_of_pairs(
                scene.camera,
                scene.config.limits,
                scene.map.pts(),
                answer.2,
                scene.keypoints,
                pose,
                scene.config.min_correspondences,
                Some((answer.0, answer.1)),
            )
        },
        answer.2 != matches ==> answer.2.len() >= 4 && exists|
            points: Seq<MapPoint>,
            indices: Seq<usize>,
            local: Seq<(usize, usize)>,
        |
            {
                &&& #[trigger] is_local_map(
                    scene.map,
                    matches,
                    reference_idx(scene.map, scene.current),
                    points,
                    indices,
                )
                &&& points.len() >= 4
                &&& local.len() >= 4
                &&& #[trigger] is_projection_match(
                    searcher,
                    scene.camera,
                    scene.image_size,
                    points,
                    scene.keypoints,
                    scene.descriptors,
                    scene.grid,
                    pose,
                    scene.config.local_projection,
                    local,
                )
                &&& answer.2 == local.filter(
                    |c: (usize, usize)| c.0 < indices.len(),
                ).map_values(|c: (usize, usize)| (indices[c.0 as int], c.1))
            },
{
    let found = choose|local: Option<(Pose3d, usize, Seq<(usize, usize)>)>|
        {
            &&& #[trigger] is_local_refinement(scene, searcher, matches, pose, local)
            &&& match local {
                None => answer == (pose, inliers, matches),
                Some((local_pose, local_inliers, local_matches)) => {
                    ||| local_inliers < scene.config.min_inliers && answer == (
                        pose,
                        inliers,
                        local_matches,
                    )
                    ||| local_inliers >= scene.config.min_inliers && plausible(
                        scene.candidate,
                        local_pose,
                        false,
                    ) && answer == (pose, inliers, local_matches)
                    ||| local_inliers >= scene.config.min_inliers && plausible(
                        scene.candidate,
                        local_pose,
                        true,
                    ) && answer == (local_pose, local_inliers, local_matches)
                },
            }
        };
    if found is Some {
        let (points, indices) = choose|points: Seq<MapPoint>, indices: Seq<usize>|
            {
                &&& #[trigger] is_local_map(
                    scene.map,
                    matches,
                    reference_idx(scene.map, scene.current),
                    points,
                    indices,
                )
                &&& points.len() >= MIN_PNP_CORRESPONDENCES
                &&& exists|local: Seq<(usize, usize)>|
                    {
                        &&& #[trigger] is_projection_match(
                            searcher,
                            scene.camera,
                            scene.image_size,
                            points,
                            scene.keypoints,
                            scene.descriptors,
                            scene.grid,
                            pose,
                            scene.config.local_projection,
                            local,
                        )
                        &&& is_local_solution(
                            scene,
                            local,
                            to_global(indices, local),
                            pose,
                            found,
                        )
                    }
            };
        let local = choose|local: Seq<(usize, usize)>|
            {
                &&& #[trigger] is_projection_match(
                    searcher,
                    scene.camera,
                    scene.image_size,
                    points,
                    scene.keypoints,
                    scene.descriptors,
                    scene.grid,
                    pose,
                    scene.config.local_projection,
                    local,
                )
                &&& is_local_solution(scene, local, to_global(indices, local), pose, found)
            };
        lemma_globalized(indices, local);
        let global = to_global(indices, local);
        let solved = choose|solved: Option<(Pose3d, usize)>|
            {
                &&& #[trigger] is_pnp_of_pairs(
                    scene.camera,
                    scene.config.limits,
                    scene.map.pts(),
                    global,
                    scene.keypoints,
                    pose,
                    scene.config.min_correspondences,
                    solved,
                )
                &&& found == match solved {
                    None => None,
                    Some((pose, inliers)) => Some((pose, inliers, global)),
                }
            };
        assert(solved == Some(((found->0).0, (found->0).1)));
    }
}

/// An attempt that succeeds gives a pose that the step from the predicted pose to is said to be
/// plausible, that PnP gave for its correspondences or for those of the local map, with its
/// inliers. An attempt fails for one of three reasons, in this order: PnP gives no pose, it has
/// fewer than ten inliers, or the step to it is said not to be plausible.
pub proof fn lemma_attempt<C, W>(
    scene: Scene,
    searcher: Searcher<C, W>,
    plausible: Plausibility,
    correspondences: Seq<(usize, usize)>,
    pose_init: Pose3d,
    outcome: Outcome,
) where
    C: Fn(&Vec2F32) -> (usize, usize),
    W: Fn(&Vec2F32, &Vec2F32) -> CellWindow,

    requires
        is_attempt(scene, searcher, plausible, correspondences, pose_init, outcome),
    ensures
        match outcome {
            Ok((pose, inliers, _)) => {
                &&& plausible(scene.candidate, pose, true)
                &&& is_solved_pose(scene, pose, inliers)
            },
            Err(reason) => exists|solved: Option<(Pose3d, usize)>|
                {
                    &&& #[trigger] is_pnp_of_pairs(
                        scene.camera,
                        scene.config.limits,
                        scene.map.pts(),
                        correspondences,
                        scene.keypoints,
                        pose_init,
                        scene.config.min_correspondences,
                        solved,
                    )
                    &&& match solved {
                        None => reason == EstimationRejectReason::PnpFailed,
                        Some((pose, inliers)) => {
                            ||| inliers < 10 && reason == EstimationRejectReason::LowPnpInliers
                            ||| inliers >= 10 && reason
                                == EstimationRejectReason::PnpInconsistentMotion && plausible(
                                scene.candidate,
                                pose,
                                false,
                            )
                        },
                    }
                },
        },
{
    let solved = choose|solved: Option<(Pose3d, usize)>|
        {
            &&& #[trigger] is_pnp_of_pairs(
                scene.camera,
                scene.config.limits,
                scene.map.pts(),
                correspondences,
                scene.keypoints,
                pose_init,
                scene.config.min_correspondences,
                solved,
            )
            &&& match solved {
                None => outcome == Outcome::Err(EstimationRejectReason::PnpFailed),
                Some((pose, inliers)) => {
                    ||| inliers < MIN_STAGE1_INLIERS && outcome == Outcome::Err(
                        EstimationRejectReason::LowPnpInliers,
                    )
                    ||| inliers >= MIN_STAGE1_INLIERS && plausible(scene.candidate, pose, false)
                        && outcome == Outcome::Err(EstimationRejectReason::PnpInconsistentMotion)
                    ||| inliers >= MIN_STAGE1_INLIERS && plausible(scene.candidate, pose, true)
                        && outcome is Ok && is_refinement(
                        scene,
                        searcher,
                        plausible,
                        pose,
                        inliers,
                        correspondences,
                        outcome->Ok_0,
                    )
                },
            }
        };
    if outcome is Ok {
        let (pose, inliers) = solved->0;
        lemma_refinement(
            scene,
            searcher,
            plausible,
            pose,
            inliers,
            correspondences,
            outcome->Ok_0,
        );
        assert(solved == Some((pose, inliers)));
        assert(is_solved_pose(scene, pose, inliers));
    }
}

/// The keyframe to fall back to is the first of the map with the frame index that is current.
/// Its matches are those from it to the frame; fewer than fifteen are too few, and so are fewer
/// than four that lead to a map point. Otherwise tracking is tried with those, from the pose
/// before. Where the map has no such keyframe the first reason stands.
pub proof fn lemma_fallback<C, W>(
    scene: Scene,
    searcher: Searcher<C, W>,
    plausible: Plausibility,
    pose_before: Pose3d,
    reason: EstimationRejectReason,
    outcome: Outcome,
) where
    C: Fn(&Vec2F32) -> (usize, usize),
    W: Fn(&Vec2F32, &Vec2F32) -> CellWindow,

    requires
        is_fallback(scene, searcher, plausible, pose_before, reason, outcome),
    ensures
        (scene.current is None || forall|k: int|
            0 <= k < scene.map.kfs().len() ==> (#[trigger] scene.map.kfs()[k]).frame.idx
                != scene.current->0) ==> outcome == Outcome::Err(reason),
        forall|k: int|
            {
                &&& 0 <= k < scene.map.kfs().len()
                &&& Some((#[trigger] scene.map.kfs()[k]).frame.idx) == scene.current
                &&& forall|j: int|
                    0 <= j < k ==> Some((#[trigger] scene.map.kfs()[j]).frame.idx)
                        != scene.current
            } ==> {
                let kf = scene.map.kfs()[k];
                let slots = kf.map_point_by_desc_idx@;
                let matches = orb_matches(
                    kf.frame.features,
                    scene.features,
                    scene.config.match_config,
                );
                let pairs = matches.filter(
                    |c: (usize, usize)|
                        c.0 < slots.len() && slots[c.0 as int] is Some && slots[c.0 as int]->0
                            < scene.map.pts().len(),
                ).map_values(|c: (usize, usize)| (slots[c.0 as int]->0, c.1));
                &&& matches.len() < 15 ==> outcome == Outcome::Err(
                    EstimationRejectReason::LowReferenceMatches,
                )
                &&& matches.len() >= 15 && pairs.len() < 4 ==> outcome == Outcome::Err(
                    EstimationRejectReason::LowReferenceCorrespondences,
                )
                &&& matches.len() >= 15 && pairs.len() >= 4 ==> is_attempt(
                    scene,
                    searcher,
                    plausible,
                    pairs,
                    pose_before,
                    outcome,
                )
            },
{
    let kfs = scene.map.kfs();
    if scene.current is Some {
        crate::mapping::map::lemma_position_of(kfs, scene.current->0);
        let p = position_of(kfs, scene.current->0);
        if p < kfs.len() {
            lemma_reference_pairs(
                kfs[p].map_point_by_desc_idx@,
                scene.map.pts().len(),
                orb_matches(kfs[p].frame.features, scene.features, scene.config.match_config),
            );
        }
        assert forall|k: int|
            {
                &&& 0 <= k < kfs.len()
                &&& Some((#[trigger] kfs[k]).frame.idx) == scene.current
                &&& forall|j: int| 0 <= j < k ==> Some((#[trigger] kfs[j]).frame.idx)
                    != scene.current
            } implies k == p by {
            if k < p {
                assert(kfs[k].frame.idx != scene.current->0);
            }
            if p < k {
                assert(Some(kfs[p].frame.idx) != scene.current);
            }
        }
    }
}

/// Tracking succeeds only with a pose that the step from the predicted pose to is said to be
/// plausible, and that PnP gave, with its inliers.
pub proof fn lemma_tracked_pose_is_plausible<C, W>(
    scene: Scene,
    searcher: Searcher<C, W>,
    plausible: Plausibility,
    pose_before: Pose3d,
    outcome: Outcome,
) where
    C: Fn(&Vec2F32) -> (usize, usize),
    W: Fn(&Vec2F32, &Vec2F32) -> CellWindow,

    requires
        is_outcome(scene, searcher, plausible, pose_before, outcome),
        outcome is Ok,
    ensures
        plausible(scene.candidate, outcome->Ok_0.0, true),
        is_solved_pose(scene, outcome->Ok_0.0, outcome->Ok_0.1),
{
    let (pairs, pose_init) = choose|pairs: Seq<(usize, usize)>, pose_init: Pose3d| #[trigger]
        is_attempt(scene, searcher, plausible, pairs, pose_init, outcome);
    lemma_attempt(scene, searcher, plausible, pairs, pose_init, outcome);
}

/// Tracking starts from the matches that the predicted pose gives, with that pose. Where these
/// are at least four and the attempt with them succeeds, it is the outcome; where they are
/// fewer, or it fails, tracking falls back for that reason.
pub proof fn lemma_tracking_starts_from_the_prediction<C, W>(
    scene: Scene,
    searcher: Searcher<C, W>,
    plausible: Plausibility,
    pose_before: Pose3d,
    outcome: Outcome,
) where
    C: Fn(&Vec2F32) -> (usize, usize),
    W: Fn(&Vec2F32, &Vec2F32) -> CellWindow,

    requires
        is_outcome(scene, searcher, plausible, pose_before, outcome),
    ensures
        exists|matches: Seq<(usize, usize)>, first: Outcome|
            {
                &&& #[trigger] is_frame_match(
                    searcher,
                    scene.camera,
                    scene.image_size,
                    scene.map.pts(),
                    scene.keypoints,
                    scene.descriptors,
                    scene.grid,
                    scene.candidate,
                    scene.config.projection,
                    matches,
                )
                &&& matches.len() < 4 ==> first == Outcome::Err(
                    EstimationRejectReason::LowProjectionMatches,
                )
                &&& matches.len() >= 4 ==> is_attempt(
                    scene,
                    searcher,
                    plausible,
                    matches,
                    scene.candidate,
                    first,
                )
                &&& #[trigger] is_first_or_fallback(
                    scene,
                    searcher,
                    plausible,
                    pose_before,
                    first,
                    outcome,
                )
            },
{
    let matches = choose|matches: Seq<(usize, usize)>|
        {
            &&& #[trigger] is_frame_match(
                searcher,
                scene.camera,
                scene.image_size,
                scene.map.pts(),
                scene.keypoints,
                scene.descriptors,
                scene.grid,
                scene.candidate,
                scene.config.projection,
                matches,
            )
            &&& if matches.len() < MIN_PNP_CORRESPONDENCES {
                is_fallback(
                    scene,
                    searcher,
                    plausible,
                    pose_before,
                    EstimationRejectReason::LowProjectionMatches,
                    outcome,
                )
            } else {
                exists|first: Outcome|
                    {
                        &&& #[trigger] is_attempt(
                            scene,
                            searcher,
                            plausible,
                            matches,
                            scene.candidate,
                            first,
                        )
                        &&& match first {
                            Ok(_) => outcome == first,
                            Err(reason) => is_fallback(
                                scene,
                                searcher,
                                plausible,
                                pose_before,
                                reason,
                                outcome,
                            ),
                        }
                    }
            }
        };
    let first = if matches.len() < MIN_PNP_CORRESPONDENCES {
        Outcome::Err(EstimationRejectReason::LowProjectionMatches)
    } else {
        choose|first: Outcome|
            {
                &&& #[trigger] is_attempt(
                    scene,
                    searcher,
                    plausible,
                    matches,
                    scene.candidate,
                    first,
                )
                &&& match first {
                    Ok(_) => outcome == first,
                    Err(reason) => is_fallback(
                        scene,
                        searcher,
                        plausible,
                        pose_before,
                        reason,
                        outcome,
                    ),
                }
            }
    };
    assert(is_first_or_fallback(scene, searcher, plausible, pose_before, first, outcome));
}

/// `outcome` is the first one where that is a success, else what the fallback gives for the
/// reason of the first.
pub open spec fn is_first_or_fallback<C, W>(
    scene: Scene,
    searcher: Searcher<C, W>,
    plausible: Plausibility,
    pose_before: Pose3d,
    first: Outcome,
    outcome: Outcome,
) -> bool where
    C: Fn(&Vec2F32) -> (usize, usize),
    W: Fn(&Vec2F32, &Vec2F32) -> CellWindow,
 {
    match first {
        Ok(_) => outcome == first,
        Err(reason) => is_fallback(scene, searcher, plausible, pose_before, reason, outcome),
    }
}

} // verus!
