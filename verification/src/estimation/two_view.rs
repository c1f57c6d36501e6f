//! Two-view geometric initialization for monocular tracking.
//!
//! ```text
//!              (3D point)
//!                  X
//!                /   \
//!               /     \
//!              /       \
//!             /         \
//!            /           \
//!      .-----------. .-----------.
//!     /   x1 *    / /    * x2   /
//!    /           / /           /
//!    '-----------' '-----------'
//!      frame 1        frame 2
//! ```

use super::Estimate;
use crate::descriptor::{
    can_match, default_match_config, default_settings, match_orb, match_settings, orb_matches,
};
use crate::double::{above, is_above, number, INFINITY_BITS};
use crate::frame::{descriptors_of, keypoint_count};
use crate::geometry::{
    compose, composed, depth_bits, depth_of, divided, shorten, shortened, transformed,
    translation_of,
};
use crate::median::{count_less, is_median, upper_median};
use kornia_3d::camera::PinholeCamera;
use kornia_3d::pose::{Pose3d, TriangulationConfig, TwoViewEstimator, TwoViewModel};
use kornia_algebra::{Vec2F64, Vec3F64};
use kornia_imgproc::features::{OrbFeatures, OrbMatchConfig};
use vstd::prelude::*;

verus! {

/// Fewest pairs of pixels that determine the geometry of two views.
pub const MIN_TWO_VIEW_PAIRS: usize = 8;

/// Acceptance thresholds of two-view initialization.
#[derive(Debug, Clone, Copy, PartialEq, Eq)]
pub struct TwoViewAcceptanceConfig {
    /// Minimum descriptor matches required before two-view estimation.
    pub min_matches: usize,
    /// Minimum inlier count required to accept initialization.
    pub min_inliers: usize,
    /// Minimum triangulated points required to accept initialization.
    pub min_triangulated: usize,
}

impl Default for TwoViewAcceptanceConfig {
    fn default() -> (config: TwoViewAcceptanceConfig)
        ensures
            config == (TwoViewAcceptanceConfig {
                min_matches: 100,
                min_inliers: 30,
                min_triangulated: 50,
            }),
    {
        TwoViewAcceptanceConfig { min_matches: 100, min_inliers: 30, min_triangulated: 50 }
    }
}

/// `kornia_3d::pose::TriangulationConfig`: triangulation thresholds.
#[verifier::external_type_specification]
#[verifier::external_body]
pub struct ExTriangulationConfig(kornia_3d::pose::TriangulationConfig);

/// `kornia_algebra::Vec2F64`: an undistorted pixel, carried through unread.
#[verifier::external_type_specification]
#[verifier::external_body]
pub struct ExVec2F64(kornia_algebra::Vec2F64);

/// Configuration for two-view initialization.
#[derive(Debug)]
pub struct TwoViewInitConfig {
    /// Descriptor matcher settings.
    pub match_config: OrbMatchConfig,
    /// Triangulation thresholds applied during two-view estimation.
    pub triangulation_config: TriangulationConfig,
    /// Acceptance thresholds applied on top of the estimator result.
    pub acceptance_config: TwoViewAcceptanceConfig,
}

impl Default for TwoViewInitConfig {
    fn default() -> (config: TwoViewInitConfig)
        ensures
            match_settings(config.match_config) == default_settings(),
            triangulation_settings(config.triangulation_config) == default_triangulation(),
            config.acceptance_config == (TwoViewAcceptanceConfig {
                min_matches: 100,
                min_inliers: 30,
                min_triangulated: 50,
            }),
    {
        TwoViewInitConfig {
            match_config: default_match_config(),
            triangulation_config: default_triangulation_config(),
            acceptance_config: TwoViewAcceptanceConfig::default(),
        }
    }
}

/// Two-view initialization rejection reason.
#[derive(Debug, Clone, Copy, PartialEq, Eq, Hash)]
pub enum TwoViewRejectReason {
    /// Not enough descriptor matches to run two-view estimation.
    LowMatches,
    /// Two-view estimation failed.
    EstimationFailed,
    /// Homography was selected instead of fundamental model.
    WrongModel,
    /// Too few triangulated points.
    LowTriangulated,
    /// Too few inliers in estimated model.
    LowInliers,
    /// Not enough parallax.
    LowParallax,
}

/// What two-view estimation gives.
#[derive(Debug)]
pub struct TwoViewSolution {
    /// The fundamental model was selected, not a homography.
    pub is_fundamental: bool,
    /// Motion from the reference to the current camera, at an arbitrary scale.
    pub motion: Pose3d,
    /// Triangulated 3D points in the reference camera frame.
    pub points3d: Vec<Vec3F64>,
    /// Indices of the matches that were inliers.
    pub inlier_indices: Vec<usize>,
    /// Median parallax of the inliers in degrees, by its bits.
    pub parallax: u64,
}

/// Bootstrap-specific data produced alongside the shared [`Estimate`].
#[derive(Debug)]
pub struct TwoViewEstimate {
    /// Shared pose estimate.
    pub estimate: Estimate,
    /// Triangulated 3D points in the reference camera frame.
    pub points3d: Vec<Vec3F64>,
    /// Indices into `estimate.matches` that were inliers in two-view estimation.
    pub inlier_indices: Vec<usize>,
    /// A point at the median positive depth in the two-view triangulation (if available).
    pub median_depth: Option<Vec3F64>,
}

/// What triangulation thresholds hold, the numbers by their bits.
#[derive(Debug, Clone, Copy, PartialEq, Eq)]
pub struct TriangulationSettings {
    /// Minimum parallax angle in degrees.
    pub min_parallax: u64,
    /// Maximum gap between the closest points on two rays.
    pub max_gap: u64,
    /// Maximum reprojection error.
    pub max_error: u64,
    /// Minimum number of points in front of both cameras.
    pub min_in_front: usize,
    /// Maximum ratio of the second-best count of points in front to the best.
    pub max_ambiguity: u64,
}

/// The fields of `TriangulationConfig`.
pub uninterp spec fn triangulation_settings(config: TriangulationConfig) -> TriangulationSettings;

/// The triangulation thresholds that are used by default: one degree, a gap of one, an error
/// of two pixels, one point in front, and a ratio of seven tenths.
pub open spec fn default_triangulation() -> TriangulationSettings {
    TriangulationSettings {
        min_parallax: 0x3ff0_0000_0000_0000,
        max_gap: 0x3ff0_0000_0000_0000,
        max_error: 0x4000_0000_0000_0000,
        min_in_front: 1,
        max_ambiguity: 0x3fe6_6666_6666_6666,
    }
}

/// `TriangulationConfig::default`: one degree of parallax, a gap of one, an error of two
/// pixels, one point in front, and a ratio of seven tenths.
#[verifier::external_body]
pub(crate) fn default_triangulation_config() -> (config: TriangulationConfig)
    ensures
        triangulation_settings(config) == default_triangulation(),
{
    TriangulationConfig::default()
}

/// The fields of `TriangulationConfig`, the numbers by their bits.
#[verifier::external_body]
fn read_triangulation(config: &TriangulationConfig) -> (settings: TriangulationSettings)
    ensures
        settings == triangulation_settings(*config),
{
    TriangulationSettings {
        min_parallax: config.min_parallax_deg.to_bits(),
        max_gap: config.max_midpoint_gap.to_bits(),
        max_error: config.max_reprojection_error.to_bits(),
        min_in_front: config.min_cheirality_count,
        max_ambiguity: config.cheirality_ambiguity_max.to_bits(),
    }
}

/// The pixels that `PinholeCamera::undistort_matched_pairs` returns for the matched keypoints
/// of two views.
pub uninterp spec fn undistorted_pairs(
    camera: PinholeCamera,
    reference: OrbFeatures,
    current: OrbFeatures,
    matches: Seq<(usize, usize)>,
) -> (Seq<Vec2F64>, Seq<Vec2F64>);

/// On some machine, `TwoViewEstimator::estimate` returns `found` for these pixels.
pub uninterp spec fn may_estimate(
    camera: PinholeCamera,
    triangulation: TriangulationConfig,
    reference: Seq<Vec2F64>,
    current: Seq<Vec2F64>,
    found: Option<TwoViewSolution>,
) -> bool;

/// Every match pairs two keypoints that exist.
pub open spec fn are_in_range(
    reference: OrbFeatures,
    current: OrbFeatures,
    matches: Seq<(usize, usize)>,
) -> bool {
    forall|i: int|
        0 <= i < matches.len() ==> (#[trigger] matches[i]).0 < keypoint_count(reference)
            && matches[i].1 < keypoint_count(current)
}

/// The solution names, in ascending order, one of `n` pairs of pixels for each point.
pub open spec fn is_indexed(solution: TwoViewSolution, n: nat) -> bool {
    &&& solution.points3d@.len() == solution.inlier_indices@.len()
    &&& forall|j: int|
        0 <= j < solution.inlier_indices@.len() ==> #[trigger] solution.inlier_indices@[j] < n
    &&& forall|j: int, k: int|
        0 <= j < k < solution.inlier_indices@.len() ==> solution.inlier_indices@[j]
            < solution.inlier_indices@[k]
}

/// `PinholeCamera::undistort_matched_pairs`: the undistorted pixels of the matched keypoints
/// of two views, a function of the camera, the keypoints and the matches. There are as many
/// for the one view as for the other, and one for each match where all matches are in range.
#[verifier::external_body]
pub(crate) fn undistort_pairs(
    camera: &PinholeCamera,
    reference: &OrbFeatures,
    current: &OrbFeatures,
    matches: &Vec<(usize, usize)>,
) -> (pixels: (Vec<Vec2F64>, Vec<Vec2F64>))
    ensures
        (pixels.0@, pixels.1@) == undistorted_pairs(*camera, *reference, *current, matches@),
        pixels.0@.len() == pixels.1@.len(),
        are_in_range(*reference, *current, matches@) ==> pixels.0@.len() == matches@.len(),
{
    camera.undistort_matched_pairs(&reference.keypoints_xy, &current.keypoints_xy, matches)
}

/// `TwoViewEstimator::estimate` with given triangulation thresholds and the default solvers,
/// for two views through the same camera, and `TwoViewResult::median_parallax_deg` of what it
/// finds. It finds nothing from fewer than eight pairs, and
/// a solution names the pair of each of its points. Which solution it finds is stated only
/// as one that it may find: it keeps the best of many sampled hypotheses, and how they score
/// depends on the vector instructions of the machine.
#[verifier::external_body]
fn estimate_motion(
    camera: &PinholeCamera,
    triangulation: &TriangulationConfig,
    reference: &Vec<Vec2F64>,
    current: &Vec<Vec2F64>,
) -> (found: Option<TwoViewSolution>)
    ensures
        may_estimate(*camera, *triangulation, reference@, current@, found),
        found is Some ==> reference@.len() >= MIN_TWO_VIEW_PAIRS,
        found is Some ==> is_indexed(found->0, reference@.len()),
{
    let k = camera.intrinsic_matrix();
    let estimator = TwoViewEstimator::builder().triangulation(triangulation.clone()).build();
    estimator.estimate(reference, current, &k, &k).ok().map(|result| TwoViewSolution {
        is_fundamental: matches!(result.model, TwoViewModel::Fundamental(_)),
        motion: Pose3d::new(result.rotation, result.translation),
        parallax: result.median_parallax_deg(reference, current, camera).to_bits(),
        points3d: result.points3d,
        inlier_indices: result.inlier_indices,
    })
}

/// `found` is what two-view estimation may find for the matches between two views.
pub open spec fn is_two_view(
    camera: PinholeCamera,
    triangulation: TriangulationConfig,
    reference: OrbFeatures,
    current: OrbFeatures,
    matches: Seq<(usize, usize)>,
    found: Option<TwoViewSolution>,
) -> bool {
    let pixels = undistorted_pairs(camera, reference, current, matches);
    may_estimate(camera, triangulation, pixels.0, pixels.1, found)
}

/// The geometry of two views that fits the matches between them, if one is found.
pub fn solve_two_view(
    camera: &PinholeCamera,
    triangulation: &TriangulationConfig,
    reference: &OrbFeatures,
    current: &OrbFeatures,
    matches: &Vec<(usize, usize)>,
) -> (found: Option<TwoViewSolution>)
    ensures
        is_two_view(*camera, *triangulation, *reference, *current, matches@, found),
        found is Some ==> found->0.points3d@.len() == found->0.inlier_indices@.len(),
        found is Some && are_in_range(*reference, *current, matches@) ==> matches@.len()
            >= MIN_TWO_VIEW_PAIRS && is_indexed(found->0, matches@.len()),
{
    let (reference_pts, current_pts) = undistort_pairs(camera, reference, current, matches);
    estimate_motion(camera, triangulation, &reference_pts, &current_pts)
}

/// The bits of a millionth: what is no deeper is not in front of a camera, and no scale.
pub const MIN_DEPTH: u64 = 0x3eb0_c6f7_a0b5_ed8d;

/// The depths of the points that are in front of the camera, in order.
pub open spec fn positive_depths(points: Seq<Vec3F64>) -> Seq<u64>
    decreases points.len(),
{
    if points.len() == 0 {
        Seq::empty()
    } else {
        let head = positive_depths(points.drop_last());
        if above(depth_of(points.last()), Some(0)) {
            head.push(depth_of(points.last())->0 as u64)
        } else {
            head
        }
    }
}

/// `found` is one of the points at the median of the positive depths, where there are any and
/// the median is not tiny.
pub open spec fn is_median_depth(points: Seq<Vec3F64>, found: Option<Vec3F64>) -> bool {
    let depths = positive_depths(points);
    if depths.len() == 0 {
        found is None
    } else {
        exists|median: u64|
            {
                &&& #[trigger] is_median(depths, median)
                &&& if median <= MIN_DEPTH {
                    found is None
                } else {
                    found is Some && points.contains(found->0) && depth_of(found->0) == Some(
                        median as int,
                    )
                }
            }
    }
}

/// The motion at unit median depth, where there is one.
pub open spec fn to_unit(motion: Pose3d, median_depth: Option<Vec3F64>) -> Pose3d {
    match median_depth {
        None => motion,
        Some(depth) => shortened(motion, depth),
    }
}

/// One of the points at the median of the positive depths.
pub fn find_median_depth(points: &Vec<Vec3F64>) -> (found: Option<Vec3F64>)
    ensures
        is_median_depth(points@, found),
{
    let mut depths: Vec<u64> = Vec::new();
    let mut i: usize = 0;
    assert(points@.take(0) =~= Seq::empty());
    while i < points.len()
        invariant
            i <= points@.len(),
            depths@ == positive_depths(points@.take(i as int)),
            forall|m: u64|
                #[trigger] depths@.contains(m) ==> m <= INFINITY_BITS && exists|j: int|
                    0 <= j < i && depth_of(#[trigger] points@[j]) == Some(m as int),
        decreases points@.len() - i,
    {
        let ghost before = depths@;
        assert(points@.take(i + 1).drop_last() =~= points@.take(i as int));
        let depth: u64 = depth_bits(&points[i]);
        if is_above(depth, 0) {
            depths.push(depth);
        }
        assert forall|m: u64| #[trigger] depths@.contains(m) implies m <= INFINITY_BITS && exists|
            j: int,
        |
            0 <= j < i + 1 && depth_of(#[trigger] points@[j]) == Some(m as int) by {
            if before.contains(m) {
                let j = choose|j: int|
                    0 <= j < i && depth_of(#[trigger] points@[j]) == Some(m as int);
                assert(depth_of(points@[j]) == Some(m as int));
            } else {
                assert(depth_of(points@[i as int]) == Some(m as int));
            }
        }
        i += 1;
    }
    assert(points@.take(i as int) =~= points@);
    let median: u64 = match upper_median(&depths) {
        None => {
            return None;
        },
        Some(median) => median,
    };
    assert(is_median(positive_depths(points@), median));
    if median <= MIN_DEPTH {
        return None;
    }
    let ghost place = choose|j: int|
        0 <= j < points@.len() && depth_of(#[trigger] points@[j]) == Some(median as int);
    let mut k: usize = 0;
    while k < points.len()
        invariant_except_break
            forall|j: int| 0 <= j < k ==> depth_of(#[trigger] points@[j]) != Some(median as int),
        invariant
            k <= points@.len(),
            0 <= place < points@.len(),
            depth_of(points@[place]) == Some(median as int),
            MIN_DEPTH < median <= INFINITY_BITS,
        ensures
            k < points@.len(),
            depth_of(points@[k as int]) == Some(median as int),
        decreases points@.len() - k,
    {
        let depth: u64 = depth_bits(&points[k]);
        if depth == median {
            break;
        }
        k += 1;
    }
    Some(points[k])
}

/// The reason why a solution is not accepted, if it is for its kind or its size.
pub open spec fn size_reject(
    solution: TwoViewSolution,
    acceptance: TwoViewAcceptanceConfig,
) -> Option<TwoViewRejectReason> {
    if !solution.is_fundamental {
        Some(TwoViewRejectReason::WrongModel)
    } else if solution.points3d@.len() < acceptance.min_triangulated {
        Some(TwoViewRejectReason::LowTriangulated)
    } else if solution.inlier_indices@.len() < acceptance.min_inliers {
        Some(TwoViewRejectReason::LowInliers)
    } else {
        None
    }
}

/// `estimate` is what an accepted solution makes.
pub open spec fn is_accepted(
    matches: Seq<(usize, usize)>,
    ref_pose: Pose3d,
    solution: TwoViewSolution,
    estimate: TwoViewEstimate,
) -> bool {
    &&& is_median_depth(solution.points3d@, estimate.median_depth)
    &&& estimate.estimate.pose == composed(
        to_unit(solution.motion, estimate.median_depth),
        ref_pose,
    )
    &&& translation_of(estimate.estimate.pose) == transformed(
        to_unit(solution.motion, estimate.median_depth),
        translation_of(ref_pose),
    )
    &&& estimate.median_depth is Some ==> translation_of(
        to_unit(solution.motion, estimate.median_depth),
    ) == divided(translation_of(solution.motion), estimate.median_depth->0)
    &&& estimate.estimate.inliers == solution.inlier_indices@.len()
    &&& estimate.estimate.matches@ == matches
    &&& estimate.points3d@ == solution.points3d@
    &&& estimate.inlier_indices@ == solution.inlier_indices@
}

/// `result` is the judgement on what two-view estimation found: the first gate that it
/// fails, in the order of the reasons, or the estimate of a solution that passes all.
pub open spec fn is_judgement(
    matches: Seq<(usize, usize)>,
    ref_pose: Pose3d,
    acceptance: TwoViewAcceptanceConfig,
    min_parallax: Option<int>,
    found: Option<TwoViewSolution>,
    result: Result<TwoViewEstimate, TwoViewRejectReason>,
) -> bool {
    if matches.len() < acceptance.min_matches {
        result == Result::<TwoViewEstimate, _>::Err(TwoViewRejectReason::LowMatches)
    } else {
        match found {
            None => result == Result::<TwoViewEstimate, _>::Err(
                TwoViewRejectReason::EstimationFailed,
            ),
            Some(solution) => match size_reject(solution, acceptance) {
                Some(reason) => result == Result::<TwoViewEstimate, _>::Err(reason),
                None => if above(min_parallax, number(solution.parallax)) {
                    result == Result::<TwoViewEstimate, _>::Err(TwoViewRejectReason::LowParallax)
                } else {
                    result is Ok && is_accepted(matches, ref_pose, solution, result->Ok_0)
                },
            },
        }
    }
}

/// Judges what two-view estimation found for the matches between two frames. `min_parallax`
/// is the smallest acceptable parallax in degrees, by its bits.
pub fn judge_two_view(
    matches: Vec<(usize, usize)>,
    ref_pose: &Pose3d,
    acceptance: &TwoViewAcceptanceConfig,
    min_parallax: u64,
    found: Option<TwoViewSolution>,
) -> (result: Result<TwoViewEstimate, TwoViewRejectReason>)
    ensures
        is_judgement(matches@, *ref_pose, *acceptance, number(min_parallax), found, result),
{
    if matches.len() < acceptance.min_matches {
        return Err(TwoViewRejectReason::LowMatches);
    }
    let solution = match found {
        None => {
            return Err(TwoViewRejectReason::EstimationFailed);
        },
        Some(solution) => solution,
    };
    if !solution.is_fundamental {
        return Err(TwoViewRejectReason::WrongModel);
    }
    if solution.points3d.len() < acceptance.min_triangulated {
        return Err(TwoViewRejectReason::LowTriangulated);
    }
    if solution.inlier_indices.len() < acceptance.min_inliers {
        return Err(TwoViewRejectReason::LowInliers);
    }
    if is_above(min_parallax, solution.parallax) {
        return Err(TwoViewRejectReason::LowParallax);
    }
    let median_depth = find_median_depth(&solution.points3d);
    let motion = match &median_depth {
        None => solution.motion,
        Some(depth) => shorten(&solution.motion, depth),
    };
    let pose = compose(&motion, ref_pose);
    let inliers: usize = solution.inlier_indices.len();
    Ok(
        TwoViewEstimate {
            estimate: Estimate { pose, inliers, matches },
            points3d: solution.points3d,
            inlier_indices: solution.inlier_indices,
            median_depth,
        },
    )
}

/// `result` is what two-view initialization comes to for two feature sets: the judgement on
/// what two-view estimation may find for the matches between them.
pub open spec fn is_initialization(
    camera: PinholeCamera,
    match_config: OrbMatchConfig,
    triangulation: TriangulationConfig,
    acceptance: TwoViewAcceptanceConfig,
    min_parallax: Option<int>,
    reference: OrbFeatures,
    current: OrbFeatures,
    ref_pose: Pose3d,
    result: Result<TwoViewEstimate, TwoViewRejectReason>,
) -> bool {
    let matches = orb_matches(reference, current, match_config);
    exists|found: Option<TwoViewSolution>|
        {
            &&& matches.len() >= acceptance.min_matches ==> is_two_view(
                camera,
                triangulation,
                reference,
                current,
                matches,
                found,
            )
            &&& #[trigger] is_judgement(
                matches,
                ref_pose,
                acceptance,
                min_parallax,
                found,
                result,
            )
        }
}

/// Attempt two-view initialization between a reference frame and the current frame.
pub fn try_initialize_two_view(
    ref_features: &OrbFeatures,
    ref_pose: &Pose3d,
    curr_features: &OrbFeatures,
    camera: &PinholeCamera,
    config: &TwoViewInitConfig,
) -> (result: Result<TwoViewEstimate, TwoViewRejectReason>)
    requires
        can_match(*ref_features, *curr_features, config.match_config),
    ensures
        is_initialization(
            *camera,
            config.match_config,
            config.triangulation_config,
            config.acceptance_config,
            number(triangulation_settings(config.triangulation_config).min_parallax),
            *ref_features,
            *curr_features,
            *ref_pose,
            result,
        ),
        result is Ok && has_keypoints(*ref_features) && has_keypoints(*curr_features) ==> {
            &&& result->Ok_0.points3d@.len() == result->Ok_0.inlier_indices@.len()
            &&& forall|j: int|
                0 <= j < result->Ok_0.inlier_indices@.len()
                    ==> #[trigger] result->Ok_0.inlier_indices@[j]
                    < result->Ok_0.estimate.matches@.len()
        },
{
    let matches = match_orb(ref_features, curr_features, &config.match_config);
    let found = if matches.len() < config.acceptance_config.min_matches {
        None
    } else {
        solve_two_view(
            camera,
            &config.triangulation_config,
            ref_features,
            curr_features,
            &matches,
        )
    };
    let min_parallax: u64 = read_triangulation(&config.triangulation_config).min_parallax;
    judge_two_view(matches, ref_pose, &config.acceptance_config, min_parallax, found)
}

/// Every descriptor of a feature set has a keypoint.
pub open spec fn has_keypoints(features: OrbFeatures) -> bool {
    descriptors_of(features).len() <= keypoint_count(features)
}

/// An accepted initialization has at least the matches, the inliers and the points that
/// were asked for.
pub proof fn lemma_accepted_sizes(
    matches: Seq<(usize, usize)>,
    ref_pose: Pose3d,
    acceptance: TwoViewAcceptanceConfig,
    min_parallax: Option<int>,
    found: Option<TwoViewSolution>,
    estimate: TwoViewEstimate,
)
    requires
        is_judgement(matches, ref_pose, acceptance, min_parallax, found, Ok(estimate)),
    ensures
        estimate.estimate.matches@.len() >= acceptance.min_matches,
        estimate.estimate.inliers >= acceptance.min_inliers,
        estimate.inlier_indices@.len() == estimate.estimate.inliers,
        estimate.points3d@.len() >= acceptance.min_triangulated,
{
}

/// The scale of an accepted initialization is a depth in front of the camera.
pub proof fn lemma_scale_is_positive(points: Seq<Vec3F64>, depth: Vec3F64)
    requires
        is_median_depth(points, Some(depth)),
    ensures
        points.contains(depth),
        above(depth_of(depth), Some(MIN_DEPTH as int)),
{
}

/// The pose of an accepted initialization takes the world first into the reference camera, by
/// the pose of the reference, and from there into the current one, by the motion that was
/// found, with its translation divided by the median depth where there is one.
pub proof fn lemma_two_view_pose(
    matches: Seq<(usize, usize)>,
    ref_pose: Pose3d,
    acceptance: TwoViewAcceptanceConfig,
    min_parallax: Option<int>,
    solution: TwoViewSolution,
    estimate: TwoViewEstimate,
)
    requires
        is_judgement(matches, ref_pose, acceptance, min_parallax, Some(solution), Ok(estimate)),
    ensures
        match estimate.median_depth {
            None => {
                &&& estimate.estimate.pose == composed(solution.motion, ref_pose)
                &&& translation_of(estimate.estimate.pose) == transformed(
                    solution.motion,
                    translation_of(ref_pose),
                )
            },
            Some(depth) => {
                let scaled = shortened(solution.motion, depth);
                &&& estimate.estimate.pose == composed(scaled, ref_pose)
                &&& translation_of(estimate.estimate.pose) == transformed(
                    scaled,
                    translation_of(ref_pose),
                )
                &&& translation_of(scaled) == divided(translation_of(solution.motion), depth)
            },
        },
{
}

/// An accepted initialization hands on what was found: the matches, and the points and the
/// inliers in the order in which they were found.
pub proof fn lemma_two_view_hands_on(
    matches: Seq<(usize, usize)>,
    ref_pose: Pose3d,
    acceptance: TwoViewAcceptanceConfig,
    min_parallax: Option<int>,
    solution: TwoViewSolution,
    estimate: TwoViewEstimate,
)
    requires
        is_judgement(matches, ref_pose, acceptance, min_parallax, Some(solution), Ok(estimate)),
    ensures
        estimate.estimate.matches@ == matches,
        estimate.estimate.inliers == solution.inlier_indices@.len(),
        estimate.points3d@ == solution.points3d@,
        estimate.inlier_indices@ == solution.inlier_indices@,
{
}

/// The gates come in order: matches, estimation, model, triangulated points, inliers and
/// parallax. A judgement is the first gate that is not passed, and an estimate where all are.
/// A parallax that is not a number passes.
pub proof fn lemma_two_view_gates(
    matches: Seq<(usize, usize)>,
    ref_pose: Pose3d,
    acceptance: TwoViewAcceptanceConfig,
    min_parallax: int,
    found: Option<TwoViewSolution>,
    result: Result<TwoViewEstimate, TwoViewRejectReason>,
)
    requires
        is_judgement(matches, ref_pose, acceptance, Some(min_parallax), found, result),
    ensures
        ({
            let enough = matches.len() >= acceptance.min_matches;
            let solved = enough && found is Some;
            let fundamental = solved && found->0.is_fundamental;
            let many_points = fundamental && found->0.points3d@.len()
                >= acceptance.min_triangulated;
            let many_inliers = many_points && found->0.inlier_indices@.len()
                >= acceptance.min_inliers;
            let parallax = number(found->0.parallax);
            let wide = many_inliers && (parallax is None || parallax->0 >= min_parallax);
            &&& result == Result::<TwoViewEstimate, _>::Err(TwoViewRejectReason::LowMatches)
                <==> !enough
            &&& result == Result::<TwoViewEstimate, _>::Err(TwoViewRejectReason::EstimationFailed)
                <==> enough && !solved
            &&& result == Result::<TwoViewEstimate, _>::Err(TwoViewRejectReason::WrongModel)
                <==> solved && !fundamental
            &&& result == Result::<TwoViewEstimate, _>::Err(TwoViewRejectReason::LowTriangulated)
                <==> fundamental && !many_points
            &&& result == Result::<TwoViewEstimate, _>::Err(TwoViewRejectReason::LowInliers)
                <==> many_points && !many_inliers
            &&& result == Result::<TwoViewEstimate, _>::Err(TwoViewRejectReason::LowParallax)
                <==> many_inliers && !wide
            &&& result is Ok <==> wide
        }),
{
}

proof fn lemma_count_depths(points: Seq<Vec3F64>, x: int)
    requires
        forall|i: int|
            0 <= i < points.len() && depth_of(#[trigger] points[i]) is Some ==> depth_of(
                points[i],
            )->0 <= u64::MAX,
    ensures
        ({
            let front = points.filter(|p: Vec3F64| above(depth_of(p), Some(0)));
            &&& positive_depths(points).len() == front.len()
            &&& count_less(positive_depths(points), x) == front.filter(
                |p: Vec3F64| depth_of(p)->0 < x,
            ).len()
        }),
    decreases points.len(),
{
    reveal(Seq::filter);
    let is_front = |p: Vec3F64| above(depth_of(p), Some(0));
    let is_less = |p: Vec3F64| depth_of(p)->0 < x;
    if points.len() > 0 {
        let head = points.drop_last();
        let last = points.last();
        assert(last == points[points.len() - 1]);
        assert forall|i: int| 0 <= i < head.len() && depth_of(#[trigger] head[i]) is Some implies depth_of(
            head[i],
        )->0 <= u64::MAX by {
            assert(head[i] == points[i]);
        }
        lemma_count_depths(head, x);
        if is_front(last) {
            let depths = positive_depths(points);
            assert(depths.drop_last() =~= positive_depths(head));
            assert(depths.last() == depth_of(last)->0);
            let front = points.filter(is_front);
            assert(front.drop_last() =~= head.filter(is_front));
            assert(front.last() == last);
        }
    } else {
        assert(points.filter(is_front).filter(is_less).len() == 0);
    }
}

/// The scale is the median depth of the points in front of the camera: one of the points, with
/// at most half of those in front of the camera less deep, and more than half no deeper. There
/// is none where no point is in front, or where more than half of those are at a tiny depth.
pub proof fn lemma_median_depth(points: Seq<Vec3F64>, found: Option<Vec3F64>)
    requires
        is_median_depth(points, found),
        forall|i: int|
            0 <= i < points.len() && depth_of(#[trigger] points[i]) is Some ==> depth_of(
                points[i],
            )->0 <= INFINITY_BITS,
    ensures
        ({
            let front = points.filter(|p: Vec3F64| above(depth_of(p), Some(0)));
            match found {
                None => front.len() == 0 || front.filter(
                    |p: Vec3F64| depth_of(p)->0 < MIN_DEPTH + 1,
                ).len() > front.len() / 2,
                Some(depth) => {
                    let at = depth_of(depth)->0;
                    &&& points.contains(depth)
                    &&& depth_of(depth) is Some
                    &&& at > MIN_DEPTH
                    &&& front.filter(|p: Vec3F64| depth_of(p)->0 < at).len() <= front.len() / 2
                    &&& front.filter(|p: Vec3F64| depth_of(p)->0 < at + 1).len() > front.len() / 2
                },
            }
        }),
{
    let depths = positive_depths(points);
    lemma_count_depths(points, MIN_DEPTH + 1);
    if depths.len() > 0 {
        let median = choose|median: u64|
            {
                &&& #[trigger] is_median(depths, median)
                &&& if median <= MIN_DEPTH {
                    found is None
                } else {
                    found is Some && points.contains(found->0) && depth_of(found->0) == Some(
                        median as int,
                    )
                }
            };
        lemma_count_depths(points, median as int);
        lemma_count_depths(points, median + 1);
        if median <= MIN_DEPTH {
            crate::median::lemma_count_less_monotonic(depths, median + 1, MIN_DEPTH + 1);
        }
    }
}

/// An initialization is of the two views that it is given, the reference first: its matches are
/// those from the reference to the current view, and its points, its inliers and its pose are
/// those of a solution for the undistorted pixels of these matches.
pub proof fn lemma_initialization_is_of_the_views(
    camera: PinholeCamera,
    match_config: OrbMatchConfig,
    triangulation: TriangulationConfig,
    acceptance: TwoViewAcceptanceConfig,
    min_parallax: Option<int>,
    reference: OrbFeatures,
    current: OrbFeatures,
    ref_pose: Pose3d,
    estimate: TwoViewEstimate,
)
    requires
        is_initialization(
            camera,
            match_config,
            triangulation,
            acceptance,
            min_parallax,
            reference,
            current,
            ref_pose,
            Ok(estimate),
        ),
    ensures
        estimate.estimate.matches@ == orb_matches(reference, current, match_config),
        exists|solution: TwoViewSolution|
            {
                &&& #[trigger] may_estimate(
                    camera,
                    triangulation,
                    undistorted_pairs(
                        camera,
                        reference,
                        current,
                        orb_matches(reference, current, match_config),
                    ).0,
                    undistorted_pairs(
                        camera,
                        reference,
                        current,
                        orb_matches(reference, current, match_config),
                    ).1,
                    Some(solution),
                )
                &&& estimate.points3d@ == solution.points3d@
                &&& estimate.inlier_indices@ == solution.inlier_indices@
                &&& estimate.estimate.pose == match estimate.median_depth {
                    None => composed(solution.motion, ref_pose),
                    Some(depth) => composed(shortened(solution.motion, depth), ref_pose),
                }
            },
{
    let matches = orb_matches(reference, current, match_config);
    let found = choose|found: Option<TwoViewSolution>|
        {
            &&& matches.len() >= acceptance.min_matches ==> is_two_view(
                camera,
                triangulation,
                reference,
                current,
                matches,
                found,
            )
            &&& #[trigger] is_judgement(
                matches,
                ref_pose,
                acceptance,
                min_parallax,
                found,
                Ok(estimate),
            )
        };
    assert(found == Some(found->0));
    let pixels = undistorted_pairs(camera, reference, current, matches);
    assert(may_estimate(camera, triangulation, pixels.0, pixels.1, Some(found->0)));
}

} // verus!
