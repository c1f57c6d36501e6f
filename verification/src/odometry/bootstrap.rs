//! Bootstrap-stage logic for monocular tracking using two-view triangulation.

use crate::descriptor::{
    can_match, default_match_config, default_settings, match_orb, match_settings,
};
use crate::double::number;
use crate::estimation::two_view::{
    default_triangulation, default_triangulation_config, is_initialization, is_judgement,
    judge_two_view, solve_two_view, triangulation_settings, TwoViewAcceptanceConfig,
    TwoViewEstimate, TwoViewRejectReason, TwoViewSolution,
};
use crate::geometry::{composed, inverse_pose, relate, relative_pose, shortened};
use kornia_3d::camera::PinholeCamera;
use kornia_3d::pose::{Pose3d, TriangulationConfig};
use kornia_algebra::Vec3F64;
use kornia_imgproc::features::{OrbFeatures, OrbMatchConfig};
use vstd::prelude::*;

verus! {

/// The bits of one.
pub const ONE_DEGREE: u64 = 0x3ff0_0000_0000_0000;

/// Configuration for the bootstrap stage.
#[derive(Debug)]
pub struct BootstrapConfig {
    /// Descriptor matcher settings.
    pub match_config: OrbMatchConfig,
    /// Triangulation thresholds applied during two-view estimation.
    pub triangulation_config: TriangulationConfig,
    /// Minimum descriptor matches required before two-view estimation.
    pub min_matches: usize,
    /// Minimum inlier count required to accept bootstrap.
    pub min_inliers: usize,
    /// Minimum median parallax in degrees required to accept bootstrap, by its bits.
    pub min_parallax: u64,
    /// Minimum triangulated points required to accept bootstrap.
    pub min_triangulated: usize,
}

impl Default for BootstrapConfig {
    fn default() -> (config: BootstrapConfig)
        ensures
            match_settings(config.match_config) == default_settings(),
            triangulation_settings(config.triangulation_config) == default_triangulation(),
            config.min_matches == 100,
            config.min_inliers == 30,
            config.min_parallax == ONE_DEGREE,
            config.min_triangulated == 50,
    {
        BootstrapConfig {
            match_config: default_match_config(),
            triangulation_config: default_triangulation_config(),
            min_matches: 100,
            min_inliers: 30,
            min_parallax: ONE_DEGREE,
            min_triangulated: 50,
        }
    }
}

/// Bootstrap rejection reason.
#[derive(Debug, Clone, Copy, PartialEq, Eq, Hash)]
pub enum BootstrapRejectReason {
    /// Not enough descriptor matches to run two-view estimation.
    LowMatches,
    /// Two-view estimation failed.
    EstimationFailed,
    /// Homography was selected instead of fundamental model.
    WrongModel,
    /// Too few triangulated points.
    LowTriangulated,
    /// Too few inliers in estimated model.
    LowInliers,
    /// Not enough parallax.
    LowParallax,
}

/// Result of one bootstrap step.
#[derive(Debug)]
pub enum BootstrapOutcome {
    /// Attempt was rejected by bootstrap gates.
    Rejected {
        /// Why the bootstrap attempt failed.
        reason: BootstrapRejectReason,
    },
    /// Bootstrap succeeded.
    Initialized {
        /// New world-to-camera pose for the current frame.
        pose_world_to_cam: Pose3d,
        /// Estimated constant-velocity increment (between previous pose and new pose).
        motion_increment: Pose3d,
        /// Descriptor match pairs `(reference_desc_idx, current_desc_idx)`.
        matches: Vec<(usize, usize)>,
        /// Triangulated 3D points in the reference camera frame.
        points3d: Vec<Vec3F64>,
        /// Indices into `matches` that were inliers in two-view estimation.
        inlier_indices: Vec<usize>,
        /// A point at the median positive depth in the two-view triangulation (if available).
        median_depth: Option<Vec3F64>,
    },
}

/// The reason as two-view initialization names it.
pub open spec fn two_view_reason(reason: BootstrapRejectReason) -> TwoViewRejectReason {
    match reason {
        BootstrapRejectReason::LowMatches => TwoViewRejectReason::LowMatches,
        BootstrapRejectReason::EstimationFailed => TwoViewRejectReason::EstimationFailed,
        BootstrapRejectReason::WrongModel => TwoViewRejectReason::WrongModel,
        BootstrapRejectReason::LowTriangulated => TwoViewRejectReason::LowTriangulated,
        BootstrapRejectReason::LowInliers => TwoViewRejectReason::LowInliers,
        BootstrapRejectReason::LowParallax => TwoViewRejectReason::LowParallax,
    }
}

/// `outcome` says the same as a result of two-view initialization, and adds the motion from
/// the last pose.
pub open spec fn is_outcome_of(
    outcome: BootstrapOutcome,
    result: Result<TwoViewEstimate, TwoViewRejectReason>,
    curr_pose: Pose3d,
) -> bool {
    match outcome {
        BootstrapOutcome::Rejected { reason } => result == Result::<TwoViewEstimate, _>::Err(
            two_view_reason(reason),
        ),
        BootstrapOutcome::Initialized {
            pose_world_to_cam,
            motion_increment,
            matches,
            points3d,
            inlier_indices,
            median_depth,
        } => {
            &&& result is Ok
            &&& pose_world_to_cam == result->Ok_0.estimate.pose
            &&& motion_increment == relative_pose(curr_pose, pose_world_to_cam)
            &&& motion_increment == composed(pose_world_to_cam, inverse_pose(curr_pose))
            &&& matches == result->Ok_0.estimate.matches
            &&& points3d == result->Ok_0.points3d
            &&& inlier_indices == result->Ok_0.inlier_indices
            &&& median_depth == result->Ok_0.median_depth
        },
    }
}

/// The acceptance thresholds of a bootstrap configuration.
pub open spec fn acceptance_of(config: BootstrapConfig) -> TwoViewAcceptanceConfig {
    TwoViewAcceptanceConfig {
        min_matches: config.min_matches,
        min_inliers: config.min_inliers,
        min_triangulated: config.min_triangulated,
    }
}

/// `outcome` is the judgement on what two-view estimation found.
pub open spec fn is_bootstrap(
    matches: Seq<(usize, usize)>,
    ref_pose: Pose3d,
    curr_pose: Pose3d,
    config: BootstrapConfig,
    found: Option<TwoViewSolution>,
    outcome: BootstrapOutcome,
) -> bool {
    exists|result: Result<TwoViewEstimate, TwoViewRejectReason>|
        {
            &&& #[trigger] is_judgement(
                matches,
                ref_pose,
                acceptance_of(config),
                number(config.min_parallax),
                found,
                result,
            )
            &&& is_outcome_of(outcome, result, curr_pose)
        }
}

/// Judges what two-view estimation found for the matches between the reference frame and
/// the current frame.
pub fn judge_bootstrap(
    matches: Vec<(usize, usize)>,
    ref_pose: &Pose3d,
    curr_pose: &Pose3d,
    config: &BootstrapConfig,
    found: Option<TwoViewSolution>,
) -> (outcome: BootstrapOutcome)
    ensures
        is_bootstrap(matches@, *ref_pose, *curr_pose, *config, found, outcome),
{
    let acceptance = TwoViewAcceptanceConfig {
        min_matches: config.min_matches,
        min_inliers: config.min_inliers,
        min_triangulated: config.min_triangulated,
    };
    let ghost all = matches@;
    let result = judge_two_view(matches, ref_pose, &acceptance, config.min_parallax, found);
    let ghost said = result;
    let outcome = match result {
        Err(reason) => BootstrapOutcome::Rejected {
            reason: match reason {
                TwoViewRejectReason::LowMatches => BootstrapRejectReason::LowMatches,
                TwoViewRejectReason::EstimationFailed => BootstrapRejectReason::EstimationFailed,
                TwoViewRejectReason::WrongModel => BootstrapRejectReason::WrongModel,
                TwoViewRejectReason::LowTriangulated => BootstrapRejectReason::LowTriangulated,
                TwoViewRejectReason::LowInliers => BootstrapRejectReason::LowInliers,
                TwoViewRejectReason::LowParallax => BootstrapRejectReason::LowParallax,
            },
        },
        Ok(found) => {
            let motion_increment = relate(curr_pose, &found.estimate.pose);
            BootstrapOutcome::Initialized {
                pose_world_to_cam: found.estimate.pose,
                motion_increment,
                matches: found.estimate.matches,
                points3d: found.points3d,
                inlier_indices: found.inlier_indices,
                median_depth: found.median_depth,
            }
        },
    };
    assert(is_judgement(
        all,
        *ref_pose,
        acceptance_of(*config),
        number(config.min_parallax),
        found,
        said,
    ));
    outcome
}

/// Attempt two-view bootstrap between a reference frame and the current frame.
pub fn try_bootstrap(
    ref_features: &OrbFeatures,
    ref_pose: &Pose3d,
    curr_features: &OrbFeatures,
    curr_pose: &Pose3d,
    camera: &PinholeCamera,
    config: &BootstrapConfig,
) -> (outcome: BootstrapOutcome)
    requires
        can_match(*ref_features, *curr_features, config.match_config),
    ensures
        exists|result: Result<TwoViewEstimate, TwoViewRejectReason>|
            {
                &&& #[trigger] is_initialization(
                    *camera,
                    config.match_config,
                    config.triangulation_config,
                    acceptance_of(*config),
                    number(config.min_parallax),
                    *ref_features,
                    *curr_features,
                    *ref_pose,
                    result,
                )
                &&& is_outcome_of(outcome, result, *curr_pose)
            },
{
    let matches = match_orb(ref_features, curr_features, &config.match_config);
    let ghost all = matches@;
    let found = if matches.len() < config.min_matches {
        None
    } else {
        solve_two_view(
            camera,
            &config.triangulation_config,
            ref_features,
            curr_features,
            &matches,
        )
    };
    let outcome = judge_bootstrap(matches, ref_pose, curr_pose, config, found);
    proof {
        let result = choose|result: Result<TwoViewEstimate, TwoViewRejectReason>|
            {
                &&& #[trigger] is_judgement(
                    all,
                    *ref_pose,
                    acceptance_of(*config),
                    number(config.min_parallax),
                    found,
                    result,
                )
                &&& is_outcome_of(outcome, result, *curr_pose)
            };
        assert(is_initialization(
            *camera,
            config.match_config,
            config.triangulation_config,
            acceptance_of(*config),
            number(config.min_parallax),
            *ref_features,
            *curr_features,
            *ref_pose,
            result,
        ));
    }
    outcome
}

/// A bootstrap that succeeds puts the current camera where the motion that was found takes it
/// from the reference, at unit median depth; its increment is the motion from the last pose to
/// that one; and it hands on the matches, the points and the inliers that were found.
pub proof fn lemma_bootstrap_initializes(
    all: Seq<(usize, usize)>,
    ref_pose: Pose3d,
    curr_pose: Pose3d,
    config: BootstrapConfig,
    found: Option<TwoViewSolution>,
    outcome: BootstrapOutcome,
)
    requires
        is_bootstrap(all, ref_pose, curr_pose, config, found, outcome),
        outcome is Initialized,
    ensures
        found is Some,
        outcome->pose_world_to_cam == match outcome->median_depth {
            None => composed(found->0.motion, ref_pose),
            Some(depth) => composed(shortened(found->0.motion, depth), ref_pose),
        },
        outcome->motion_increment == composed(
            outcome->pose_world_to_cam,
            inverse_pose(curr_pose),
        ),
        outcome->matches@ == all,
        outcome->points3d@ == found->0.points3d@,
        outcome->inlier_indices@ == found->0.inlier_indices@,
{
}

/// The gates of the bootstrap come in order: matches, estimation, model, triangulated points,
/// inliers and parallax, each against the threshold of that name. The first that is not passed
/// is the reason for a rejection, and there is one exactly where not all are passed.
pub proof fn lemma_bootstrap_gates(
    all: Seq<(usize, usize)>,
    ref_pose: Pose3d,
    curr_pose: Pose3d,
    config: BootstrapConfig,
    found: Option<TwoViewSolution>,
    outcome: BootstrapOutcome,
)
    requires
        is_bootstrap(all, ref_pose, curr_pose, config, found, outcome),
        number(config.min_parallax) is Some,
    ensures
        ({
            let enough = all.len() >= config.min_matches;
            let solved = enough && found is Some;
            let fundamental = solved && found->0.is_fundamental;
            let many_points = fundamental && found->0.points3d@.len() >= config.min_triangulated;
            let many_inliers = many_points && found->0.inlier_indices@.len() >= config.min_inliers;
            let parallax = number(found->0.parallax);
            let wide = many_inliers && (parallax is None || parallax->0 >= number(
                config.min_parallax,
            )->0);
            &&& outcome is Initialized <==> wide
            &&& outcome == (BootstrapOutcome::Rejected {
                reason: BootstrapRejectReason::LowMatches,
            }) <==> !enough
            &&& outcome == (BootstrapOutcome::Rejected {
                reason: BootstrapRejectReason::EstimationFailed,
            }) <==> enough && !solved
            &&& outcome == (BootstrapOutcome::Rejected {
                reason: BootstrapRejectReason::WrongModel,
            }) <==> solved && !fundamental
            &&& outcome == (BootstrapOutcome::Rejected {
                reason: BootstrapRejectReason::LowTriangulated,
            }) <==> fundamental && !many_points
            &&& outcome == (BootstrapOutcome::Rejected {
                reason: BootstrapRejectReason::LowInliers,
            }) <==> many_points && !many_inliers
            &&& outcome == (BootstrapOutcome::Rejected {
                reason: BootstrapRejectReason::LowParallax,
            }) <==> many_inliers && !wide
        }),
{
    let result = choose|result: Result<TwoViewEstimate, TwoViewRejectReason>|
        {
            &&& #[trigger] is_judgement(
                all,
                ref_pose,
                acceptance_of(config),
                number(config.min_parallax),
                found,
                result,
            )
            &&& is_outcome_of(outcome, result, curr_pose)
        };
    crate::estimation::two_view::lemma_two_view_gates(
        all,
        ref_pose,
        acceptance_of(config),
        number(config.min_parallax)->0,
        found,
        result,
    );
}

} // verus!
