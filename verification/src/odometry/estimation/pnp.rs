//! PnP from correspondences between map points and keypoints.

use crate::double::{at_least, is_at_least, number};
use crate::estimation::pnp::{is_pnp, solve_pnp, PnpLimits, FINAL_ERROR, PRIOR_ERROR};
use crate::geometry::{
    length_bits, length_of, subtract_vectors, translation, translation_of, vector_difference,
};
use crate::mapping::map::MapPoint;
use kornia_3d::camera::PinholeCamera;
use kornia_3d::pose::Pose3d;
use kornia_algebra::{Vec2F32, Vec3F64};
use vstd::prelude::*;

verus! {

/// The bits of twenty.
pub const MAX_ROTATION_DEG: u64 = 0x4034_0000_0000_0000;

/// The bits of one half.
pub const MAX_TRANSLATION: u64 = 0x3fe0_0000_0000_0000;

/// PnP pose-estimation thresholds.
#[derive(Debug, Clone, Copy, PartialEq, Eq)]
pub struct PnpConfig {
    /// Reprojection errors for filtering correspondences against the prior pose, and for
    /// counting final inliers after refinement.
    pub limits: PnpLimits,
    /// Maximum acceptable rotation change in degrees between consecutive poses, by its bits.
    pub max_rotation: u64,
    /// Maximum acceptable translation change (norm) between consecutive poses, by its bits.
    pub max_translation: u64,
    /// Minimum number of 3D-2D correspondences required for PnP solving.
    pub min_correspondences: usize,
}

impl Default for PnpConfig {
    fn default() -> (config: PnpConfig)
        ensures
            config.limits.prior_error == PRIOR_ERROR,
            config.limits.final_error == FINAL_ERROR,
            config.max_rotation == MAX_ROTATION_DEG,
            config.max_translation == MAX_TRANSLATION,
            config.min_correspondences == 4,
    {
        PnpConfig {
            limits: PnpLimits { prior_error: PRIOR_ERROR, final_error: FINAL_ERROR },
            max_rotation: MAX_ROTATION_DEG,
            max_translation: MAX_TRANSLATION,
            min_correspondences: 4,
        }
    }
}

/// The angle between two poses can be asked for.
pub open spec fn can_measure<A: Fn(&Pose3d, &Pose3d) -> u64>(
    rotation_deg: &A,
    from: Pose3d,
    to: Pose3d,
) -> bool {
    call_requires(*rotation_deg, (&from, &to))
}

/// `ok` tells whether a pose increment is geometrically plausible, where `rotation_deg` gives
/// the angle between two poses in degrees, by its bits.
pub open spec fn is_increment_judgement<A: Fn(&Pose3d, &Pose3d) -> u64>(
    config: PnpConfig,
    rotation_deg: &A,
    prev_pose: Pose3d,
    new_pose: Pose3d,
    ok: bool,
) -> bool {
    exists|angle: u64|
        {
            &&& #[trigger] call_ensures(*rotation_deg, (&prev_pose, &new_pose), angle)
            &&& ok == (at_least(number(config.max_rotation), number(angle)) && at_least(
                number(config.max_translation),
                length_of(
                    vector_difference(translation_of(new_pose), translation_of(prev_pose)),
                ),
            ))
        }
}

/// Check whether a pose increment is geometrically plausible. `rotation_deg` gives the angle
/// between two poses in degrees, by its bits.
pub fn pose_increment_ok<A: Fn(&Pose3d, &Pose3d) -> u64>(
    prev_pose: &Pose3d,
    new_pose: &Pose3d,
    config: &PnpConfig,
    rotation_deg: &A,
) -> (ok: bool)
    requires
        can_measure(rotation_deg, *prev_pose, *new_pose),
    ensures
        is_increment_judgement(*config, rotation_deg, *prev_pose, *new_pose, ok),
{
    let angle: u64 = rotation_deg(prev_pose, new_pose);
    assert(call_ensures(*rotation_deg, (prev_pose, new_pose), angle));
    let moved = subtract_vectors(&translation(new_pose), &translation(prev_pose));
    is_at_least(config.max_rotation, angle) && is_at_least(
        config.max_translation,
        length_bits(&moved),
    )
}

/// The correspondences that name a map point and a keypoint that exist.
pub open spec fn valid_pairs(
    n_points: nat,
    n_keypoints: nat,
    correspondences: Seq<(usize, usize)>,
) -> Seq<(usize, usize)> {
    correspondences.filter(|c: (usize, usize)| c.0 < n_points && c.1 < n_keypoints)
}

/// Positions of the map points of the correspondences.
pub open spec fn world_points(
    map_points: Seq<MapPoint>,
    pairs: Seq<(usize, usize)>,
) -> Seq<Vec3F64> {
    pairs.map_values(|c: (usize, usize)| map_points[c.0 as int].position)
}

/// Pixels of the keypoints of the correspondences.
pub open spec fn image_points(keypoints: Seq<Vec2F32>, pairs: Seq<(usize, usize)>) -> Seq<Vec2F32> {
    pairs.map_values(|c: (usize, usize)| keypoints[c.1 as int])
}

/// `answer` is a result of PnP with the valid correspondences.
pub open spec fn is_pnp_of_pairs(
    camera: PinholeCamera,
    limits: PnpLimits,
    map_points: Seq<MapPoint>,
    correspondences: Seq<(usize, usize)>,
    keypoints: Seq<Vec2F32>,
    pose_init: Pose3d,
    min_correspondences: usize,
    answer: Option<(Pose3d, usize)>,
) -> bool {
    let pairs = valid_pairs(map_points.len(), keypoints.len(), correspondences);
    is_pnp(
        camera,
        limits,
        world_points(map_points, pairs),
        image_points(keypoints, pairs),
        pose_init,
        min_correspondences,
        answer,
    )
}

/// Solve PnP from map-point and keypoint correspondences with refinement. Correspondences
/// with a map point or a keypoint that does not exist are left out.
///
/// Returns `(pose_world_to_cam, num_inliers)` or `None` if not enough data.
pub fn solve_pnp_from_correspondences(
    camera: &PinholeCamera,
    map_points: &[MapPoint],
    correspondences: &[(usize, usize)],
    keypoints: &[Vec2F32],
    pose_init: &Pose3d,
    limits: PnpLimits,
    min_correspondences: usize,
) -> (answer: Option<(Pose3d, usize)>)
    ensures
        is_pnp_of_pairs(
            *camera,
            limits,
            map_points@,
            correspondences@,
            keypoints@,
            *pose_init,
            min_correspondences,
            answer,
        ),
{
    let ghost valid = |c: (usize, usize)| c.0 < map_points@.len() && c.1 < keypoints@.len();
    let mut world: Vec<Vec3F64> = Vec::new();
    let mut image: Vec<Vec2F32> = Vec::new();
    let mut i: usize = 0;
    proof {
        reveal(Seq::filter);
        let none = correspondences@.take(0).filter(valid);
        assert(none =~= Seq::empty());
        assert(world@ =~= world_points(map_points@, none));
        assert(image@ =~= image_points(keypoints@, none));
    }
    while i < correspondences.len()
        invariant
            i <= correspondences@.len(),
            valid == (|c: (usize, usize)| c.0 < map_points@.len() && c.1 < keypoints@.len()),
            world@ == world_points(map_points@, correspondences@.take(i as int).filter(valid)),
            image@ == image_points(keypoints@, correspondences@.take(i as int).filter(valid)),
        decreases correspondences@.len() - i,
    {
        let ghost before = correspondences@.take(i as int).filter(valid);
        let (mp_idx, kp_idx) = correspondences[i];
        proof {
            reveal(Seq::filter);
            assert(correspondences@.take(i + 1).drop_last() =~= correspondences@.take(i as int));
        }
        if mp_idx < map_points.len() && kp_idx < keypoints.len() {
            world.push(map_points[mp_idx].position);
            image.push(keypoints[kp_idx]);
            proof {
                let after = before.push((mp_idx, kp_idx));
                assert(world@ =~= world_points(map_points@, after));
                assert(image@ =~= image_points(keypoints@, after));
            }
        }
        i += 1;
    }
    assert(correspondences@.take(i as int) =~= correspondences@);
    assert(correspondences@.filter(valid) == valid_pairs(
        map_points@.len(),
        keypoints@.len(),
        correspondences@,
    ));
    solve_pnp(&world, &image, camera, pose_init, limits, min_correspondences)
}

/// PnP goes by the correspondences that name a map point and a keypoint that exist, in order:
/// by the positions of the points and by the pixels of the keypoints.
pub proof fn lemma_pnp_of_pairs(
    camera: PinholeCamera,
    limits: PnpLimits,
    map_points: Seq<MapPoint>,
    correspondences: Seq<(usize, usize)>,
    keypoints: Seq<Vec2F32>,
    pose_init: Pose3d,
    min_correspondences: usize,
    answer: Option<(Pose3d, usize)>,
    pairs: Seq<(usize, usize)>,
    world: Seq<Vec3F64>,
    image: Seq<Vec2F32>,
)
    requires
        is_pnp_of_pairs(
            camera,
            limits,
            map_points,
            correspondences,
            keypoints,
            pose_init,
            min_correspondences,
            answer,
        ),
        pairs == correspondences.filter(
            |c: (usize, usize)| c.0 < map_points.len() && c.1 < keypoints.len(),
        ),
        world.len() == pairs.len(),
        image.len() == pairs.len(),
        forall|j: int|
            0 <= j < pairs.len() ==> #[trigger] world[j]
                == map_points[pairs[j].0 as int].position,
        forall|j: int|
            0 <= j < pairs.len() ==> #[trigger] image[j] == keypoints[pairs[j].1 as int],
    ensures
        is_pnp(camera, limits, world, image, pose_init, min_correspondences, answer),
{
    assert(world =~= world_points(map_points, pairs));
    assert(image =~= image_points(keypoints, pairs));
}

/// A step is plausible where neither the angle between the two poses nor the length of the
/// difference of their translations is above its limit, and both are numbers.
pub proof fn lemma_increment<A: Fn(&Pose3d, &Pose3d) -> u64>(
    config: PnpConfig,
    rotation_deg: &A,
    prev_pose: Pose3d,
    new_pose: Pose3d,
    ok: bool,
    angle: u64,
)
    requires
        is_increment_judgement(config, rotation_deg, prev_pose, new_pose, ok),
        forall|said: u64| #[trigger]
            call_ensures(*rotation_deg, (&prev_pose, &new_pose), said) ==> said == angle,
        number(config.max_rotation) is Some,
        number(config.max_translation) is Some,
    ensures
        ({
            let moved = length_of(
                vector_difference(translation_of(new_pose), translation_of(prev_pose)),
            );
            ok <==> {
                &&& number(angle) is Some
                &&& number(angle)->0 <= number(config.max_rotation)->0
                &&& moved is Some
                &&& moved->0 <= number(config.max_translation)->0
            }
        }),
{
}

} // verus!
