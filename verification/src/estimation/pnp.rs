//! PnP pose estimation: solve 3D-2D correspondences with refinement.

use crate::double::{at_least, is_at_least, number};
use crate::selection::{count_set, kept, lemma_kept_len};
use kornia_3d::camera::PinholeCamera;
use kornia_3d::pnp::{refine_pose_lm, LMRefineParams};
use kornia_3d::pose::Pose3d;
use kornia_algebra::{Mat3AF32, Mat3F64, Vec2F32, Vec3AF32, Vec3F64};
use vstd::prelude::*;

verus! {

/// The bits of the square of 25 pixels.
pub const PRIOR_ERROR: u64 = 0x4083_8800_0000_0000;

/// The bits of the square of 3 pixels.
pub const FINAL_ERROR: u64 = 0x4022_0000_0000_0000;

/// PnP pose-estimation thresholds.
#[derive(Debug, Clone, Copy, PartialEq, Eq)]
pub struct PnpConfig {
    /// Reprojection errors for filtering correspondences against the prior pose, and for
    /// counting final inliers after refinement.
    pub limits: PnpLimits,
    /// Minimum number of 3D-2D correspondences required for PnP solving.
    pub min_correspondences: usize,
    /// Minimum inliers for early acceptance before local map refinement.
    pub min_inliers_early: usize,
    /// Minimum inliers to accept a PnP solution.
    pub min_inliers: usize,
}

impl Default for PnpConfig {
    fn default() -> (config: PnpConfig)
        ensures
            config == (PnpConfig {
                limits: PnpLimits { prior_error: PRIOR_ERROR, final_error: FINAL_ERROR },
                min_correspondences: 4,
                min_inliers_early: 10,
                min_inliers: 30,
            }),
    {
        PnpConfig {
            limits: PnpLimits { prior_error: PRIOR_ERROR, final_error: FINAL_ERROR },
            min_correspondences: 4,
            min_inliers_early: 10,
            min_inliers: 30,
        }
    }
}

/// The reprojection errors that PnP accepts: squared, in pixels, as the bits of their
/// double-precision representation.
#[derive(Debug, Clone, Copy, PartialEq, Eq)]
pub struct PnpLimits {
    /// Largest error from the pose to start with.
    pub prior_error: u64,
    /// Largest error from the refined pose.
    pub final_error: u64,
}

/// The squared distance in pixels that `PinholeCamera::reprojection_error_sq_world` returns, as
/// an integer that orders as it does; `None` where there is no projection, or no number.
pub uninterp spec fn reprojection_error(
    camera: PinholeCamera,
    pose: Pose3d,
    point: Vec3F64,
    pixel: Vec2F32,
) -> Option<int>;

/// The number that an optional value stands for.
pub open spec fn number_of(bits: Option<u64>) -> Option<int> {
    match bits {
        Some(bits) => number(bits),
        None => None,
    }
}

/// `PinholeCamera::reprojection_error_sq_world`: the squared distance in pixels between the
/// projection of a world point and a pixel, where the point has one. It is a function of the
/// camera, the pose, the point and the pixel.
#[verifier::external_body]
fn measure_error(camera: &PinholeCamera, pose: &Pose3d, point: &Vec3F64, pixel: &Vec2F32) -> (error:
    Option<u64>)
    ensures
        number_of(error) == reprojection_error(*camera, *pose, *point, *pixel),
{
    let found = camera.reprojection_error_sq_world(pose, point, pixel.x.into(), pixel.y.into());
    found.map(|error| error.to_bits())
}

/// On some machine, `refine_pose_lm` gives `refined` for these points and pixels.
pub uninterp spec fn may_refine(
    camera: PinholeCamera,
    points: Seq<Vec3F64>,
    pixels: Seq<Vec2F32>,
    pose_init: Pose3d,
    refined: Option<Pose3d>,
) -> bool;

/// Fewest correspondences from which a pose can be refined.
pub const MIN_REFINED: usize = 3;

/// `kornia_3d::pnp::refine_pose_lm` with its default parameters and no distortion, in single
/// precision: the pose that fits points and pixels best, near a pose to start with. It
/// needs as many pixels as points, and three of them. Which pose it gives is stated only
/// as one that it may give: the arithmetic of the optimizer's linear solver depends on the
/// machine.
#[verifier::external_body]
fn refine_pose(
    camera: &PinholeCamera,
    points: &Vec<Vec3F64>,
    pixels: &Vec<Vec2F32>,
    pose_init: &Pose3d,
) -> (refined: Option<Pose3d>)
    ensures
        may_refine(*camera, points@, pixels@, *pose_init, refined),
        refined is Some ==> points@.len() == pixels@.len() >= MIN_REFINED,
{
    let narrow = |v: &Vec3F64| Vec3AF32::new(v.x as _, v.y as _, v.z as _);
    let world: Vec<_> = points.iter().map(narrow).collect();
    let k = Mat3AF32(camera.intrinsic_matrix().as_mat3().into());
    let r = Mat3AF32(pose_init.rotation.as_mat3().into());
    let t = narrow(&pose_init.translation);
    let found = refine_pose_lm(&world, pixels, &k, &r, &t, None, &LMRefineParams::default());
    let pose = found.ok()?;
    let [x, y, z] = pose.translation.to_array().map(Into::into);
    Some(Pose3d::new(Mat3F64(pose.rotation.as_dmat3()), Vec3F64::new(x, y, z)))
}

/// The camera at a pose sees the world point near enough to the pixel.
pub open spec fn fits(
    camera: PinholeCamera,
    pose: Pose3d,
    point: Vec3F64,
    pixel: Vec2F32,
    limit: u64,
) -> bool {
    at_least(number(limit), reprojection_error(camera, pose, point, pixel))
}

/// Which of the points are seen near enough to their pixels.
pub open spec fn fit_flags(
    camera: PinholeCamera,
    pose: Pose3d,
    world: Seq<Vec3F64>,
    image: Seq<Vec2F32>,
    limit: u64,
) -> Seq<bool> {
    Seq::new(world.len(), |j: int| fits(camera, pose, world[j], image[j], limit))
}

/// A pose, if there is one, with the number of correspondences that fit it.
pub open spec fn scored(
    camera: PinholeCamera,
    world: Seq<Vec3F64>,
    image: Seq<Vec2F32>,
    refined: Option<Pose3d>,
    limit: u64,
) -> Option<(Pose3d, usize)> {
    match refined {
        None => None,
        Some(pose) => Some(
            (pose, count_set(fit_flags(camera, pose, world, image, limit)) as usize),
        ),
    }
}

/// `answer` is a result of PnP: the refined pose and how many of all correspondences fit it.
/// There is none where there are too few correspondences, where too few fit the pose to
/// start with, or where refinement finds none.
pub open spec fn is_pnp(
    camera: PinholeCamera,
    limits: PnpLimits,
    world: Seq<Vec3F64>,
    image: Seq<Vec2F32>,
    pose_init: Pose3d,
    min_correspondences: usize,
    answer: Option<(Pose3d, usize)>,
) -> bool {
    let flags = fit_flags(camera, pose_init, world, image, limits.prior_error);
    if world.len() < min_correspondences || count_set(flags) < min_correspondences {
        answer is None
    } else {
        exists|refined: Option<Pose3d>|
            {
                &&& #[trigger] may_refine(
                    camera,
                    kept(world, flags),
                    kept(image.take(world.len() as int), flags),
                    pose_init,
                    refined,
                )
                &&& answer == scored(camera, world, image, refined, limits.final_error)
            }
    }
}

fn flag_fits(
    camera: &PinholeCamera,
    pose: &Pose3d,
    points_world: &[Vec3F64],
    points_image: &[Vec2F32],
    limit: u64,
) -> (flags: Vec<bool>)
    requires
        points_world@.len() <= points_image@.len(),
    ensures
        flags@ == fit_flags(*camera, *pose, points_world@, points_image@, limit),
{
    let mut flags: Vec<bool> = Vec::new();
    let mut i: usize = 0;
    while i < points_world.len()
        invariant
            i <= points_world@.len() <= points_image@.len(),
            flags@.len() == i,
            forall|j: int|
                0 <= j < i ==> #[trigger] flags@[j] == fits(
                    *camera,
                    *pose,
                    points_world@[j],
                    points_image@[j],
                    limit,
                ),
        decreases points_world@.len() - i,
    {
        let error = measure_error(camera, pose, &points_world[i], &points_image[i]);
        flags.push(
            match error {
                None => false,
                Some(bits) => is_at_least(limit, bits),
            },
        );
        i += 1;
    }
    assert(flags@ =~= fit_flags(*camera, *pose, points_world@, points_image@, limit));
    flags
}

fn count_flags(flags: &Vec<bool>) -> (count: usize)
    ensures
        count == count_set(flags@),
        count <= flags@.len(),
{
    let mut count: usize = 0;
    let mut i: usize = 0;
    assert(flags@.take(0) =~= Seq::empty());
    while i < flags.len()
        invariant
            i <= flags@.len(),
            count == count_set(flags@.take(i as int)),
            count <= i,
        decreases flags@.len() - i,
    {
        assert(flags@.take(i + 1).drop_last() =~= flags@.take(i as int));
        if flags[i] {
            count += 1;
        }
        i += 1;
    }
    assert(flags@.take(i as int) =~= flags@);
    count
}

fn keep_flagged<A: Copy>(items: &[A], flags: &Vec<bool>) -> (chosen: Vec<A>)
    requires
        items@.len() == flags@.len(),
    ensures
        chosen@ == kept(items@, flags@),
{
    let mut chosen: Vec<A> = Vec::new();
    let mut i: usize = 0;
    while i < items.len()
        invariant
            i <= items@.len() == flags@.len(),
            chosen@ == kept(items@.take(i as int), flags@.take(i as int)),
        decreases items@.len() - i,
    {
        assert(items@.take(i + 1).drop_last() =~= items@.take(i as int));
        assert(flags@.take(i + 1).drop_last() =~= flags@.take(i as int));
        if flags[i] {
            chosen.push(items[i]);
        }
        i += 1;
    }
    assert(items@.take(i as int) =~= items@);
    assert(flags@.take(i as int) =~= flags@);
    chosen
}

/// The smaller of two numbers.
pub open spec fn smaller(a: nat, b: nat) -> nat {
    if a < b {
        a
    } else {
        b
    }
}

/// Count map-point reprojection inliers given a camera pose. Points without a pixel and
/// pixels without a point do not count.
pub fn count_reprojection_inliers(
    pose_world_to_cam: &Pose3d,
    points_world: &Vec<Vec3F64>,
    points_image: &Vec<Vec2F32>,
    camera: &PinholeCamera,
    limit: u64,
) -> (inliers: usize)
    ensures
        inliers == count_set(
            fit_flags(
                *camera,
                *pose_world_to_cam,
                points_world@.take(smaller(points_world@.len(), points_image@.len()) as int),
                points_image@,
                limit,
            ),
        ),
{
    let n: usize = if points_world.len() < points_image.len() {
        points_world.len()
    } else {
        points_image.len()
    };
    let points = vstd::slice::slice_subrange(points_world.as_slice(), 0, n);
    assert(points@ =~= points_world@.take(
        smaller(points_world@.len(), points_image@.len()) as int,
    ));
    let flags = flag_fits(camera, pose_world_to_cam, points, points_image.as_slice(), limit);
    count_flags(&flags)
}

/// Counts the correspondences that fit a refined pose, if there is one. Points without a pixel
/// and pixels without a point do not count.
pub fn score_refined(
    points_world: &Vec<Vec3F64>,
    points_image: &Vec<Vec2F32>,
    camera: &PinholeCamera,
    refined: Option<Pose3d>,
    limit: u64,
) -> (answer: Option<(Pose3d, usize)>)
    ensures
        answer == scored(
            *camera,
            points_world@.take(smaller(points_world@.len(), points_image@.len()) as int),
            points_image@,
            refined,
            limit,
        ),
{
    match refined {
        None => None,
        Some(pose) => {
            let inliers: usize = count_reprojection_inliers(
                &pose,
                points_world,
                points_image,
                camera,
                limit,
            );
            Some((pose, inliers))
        },
    }
}

/// Solve PnP from 3D world points and 2D image points with refinement.
///
/// Filters correspondences by reprojection error against `pose_init`, refines the pose with
/// what is left, then counts final inliers. Returns the refined pose and inlier count.
pub fn solve_pnp(
    points_world: &Vec<Vec3F64>,
    points_image: &Vec<Vec2F32>,
    camera: &PinholeCamera,
    pose_init: &Pose3d,
    limits: PnpLimits,
    min_correspondences: usize,
) -> (answer: Option<(Pose3d, usize)>)
    requires
        points_world@.len() >= min_correspondences ==> points_world@.len()
            <= points_image@.len(),
    ensures
        is_pnp(
            *camera,
            limits,
            points_world@,
            points_image@,
            *pose_init,
            min_correspondences,
            answer,
        ),
{
    if points_world.len() < min_correspondences {
        return None;
    }
    let flags = flag_fits(
        camera,
        pose_init,
        points_world.as_slice(),
        points_image.as_slice(),
        limits.prior_error,
    );
    if count_flags(&flags) < min_correspondences {
        return None;
    }
    let points = keep_flagged(points_world.as_slice(), &flags);
    let seen = vstd::slice::slice_subrange(points_image.as_slice(), 0, points_world.len());
    assert(seen@ =~= points_image@.take(points_world@.len() as int));
    let pixels = keep_flagged(seen, &flags);
    let refined = refine_pose(camera, &points, &pixels, pose_init);
    assert(points_world@.take(points_world@.len() as int) =~= points_world@);
    score_refined(points_world, points_image, camera, refined, limits.final_error)
}

/// A pose comes from enough correspondences, and no more of them count than there are.
pub proof fn lemma_pnp_needs_correspondences(
    camera: PinholeCamera,
    limits: PnpLimits,
    world: Seq<Vec3F64>,
    image: Seq<Vec2F32>,
    pose_init: Pose3d,
    min_correspondences: usize,
    pose: Pose3d,
    inliers: usize,
)
    requires
        is_pnp(
            camera,
            limits,
            world,
            image,
            pose_init,
            min_correspondences,
            Some((pose, inliers)),
        ),
        world.len() <= usize::MAX,
    ensures
        world.len() >= min_correspondences,
        inliers <= world.len(),
{
    lemma_kept_len(world, fit_flags(camera, pose, world, image, limits.final_error));
}

proof fn lemma_kept_maps<A, B>(items: Seq<A>, flags: Seq<bool>, f: spec_fn(A) -> B)
    requires
        items.len() == flags.len(),
    ensures
        kept(items.map_values(f), flags) == kept(items, flags).map_values(f),
    decreases items.len(),
{
    if items.len() > 0 {
        lemma_kept_maps(items.drop_last(), flags.drop_last(), f);
        assert(items.map_values(f).drop_last() =~= items.drop_last().map_values(f));
        assert(kept(items.map_values(f), flags) =~= kept(items, flags).map_values(f));
    } else {
        assert(kept(items.map_values(f), flags) =~= kept(items, flags).map_values(f));
    }
}

/// Points and pixels as pairs.
pub open spec fn paired(world: Seq<Vec3F64>, image: Seq<Vec2F32>) -> Seq<(Vec3F64, Vec2F32)> {
    Seq::new(world.len(), |j: int| (world[j], image[j]))
}

proof fn lemma_fits_as_pairs(
    camera: PinholeCamera,
    pose: Pose3d,
    world: Seq<Vec3F64>,
    image: Seq<Vec2F32>,
    limit: u64,
)
    requires
        world.len() <= image.len(),
    ensures
        ({
            let near = paired(world, image).filter(
                |c: (Vec3F64, Vec2F32)|
                    at_least(number(limit), reprojection_error(camera, pose, c.0, c.1)),
            );
            let flags = fit_flags(camera, pose, world, image, limit);
            &&& count_set(flags) == near.len()
            &&& kept(world, flags) == near.map_values(|c: (Vec3F64, Vec2F32)| c.0)
            &&& kept(image.take(world.len() as int), flags) == near.map_values(
                |c: (Vec3F64, Vec2F32)| c.1,
            )
        }),
{
    let pairs = paired(world, image);
    let flags = fit_flags(camera, pose, world, image, limit);
    let is_near = |c: (Vec3F64, Vec2F32)|
        at_least(number(limit), reprojection_error(camera, pose, c.0, c.1));
    let first = |c: (Vec3F64, Vec2F32)| c.0;
    let second = |c: (Vec3F64, Vec2F32)| c.1;
    assert forall|j: int| 0 <= j < pairs.len() implies flags[j] == is_near(#[trigger] pairs[j]) by {
        assert(flags[j] == fits(camera, pose, world[j], image[j], limit));
    }
    crate::selection::lemma_kept_is_filter(is_near, pairs, flags);
    crate::selection::lemma_kept_len(pairs, flags);
    lemma_kept_maps(pairs, flags, first);
    lemma_kept_maps(pairs, flags, second);
    assert(pairs.map_values(first) =~= world);
    assert(pairs.map_values(second) =~= image.take(world.len() as int));
}

/// PnP refines the pose to start with on the correspondences that it already fits within the
/// prior limit, and scores the refined pose by how many of all correspondences it fits within
/// the final limit. There is nothing without enough correspondences, without enough that fit
/// the pose to start with, or without a refined pose.
pub proof fn lemma_pnp(
    camera: PinholeCamera,
    limits: PnpLimits,
    world: Seq<Vec3F64>,
    image: Seq<Vec2F32>,
    pose_init: Pose3d,
    min_correspondences: usize,
    answer: Option<(Pose3d, usize)>,
)
    requires
        is_pnp(camera, limits, world, image, pose_init, min_correspondences, answer),
        world.len() <= image.len(),
        world.len() <= usize::MAX,
    ensures
        ({
            let pairs = paired(world, image);
            let near = pairs.filter(
                |c: (Vec3F64, Vec2F32)|
                    at_least(
                        number(limits.prior_error),
                        reprojection_error(camera, pose_init, c.0, c.1),
                    ),
            );
            let enough = pairs.len() >= min_correspondences && near.len() >= min_correspondences;
            &&& !enough ==> answer is None
            &&& enough ==> exists|
                points: Seq<Vec3F64>,
                pixels: Seq<Vec2F32>,
                refined: Option<Pose3d>,
            |
                {
                    &&& #[trigger] may_refine(camera, points, pixels, pose_init, refined)
                    &&& points == near.map_values(|c: (Vec3F64, Vec2F32)| c.0)
                    &&& pixels == near.map_values(|c: (Vec3F64, Vec2F32)| c.1)
                    &&& match refined {
                        None => answer is None,
                        Some(pose) => {
                            let fitting = pairs.filter(
                                |c: (Vec3F64, Vec2F32)|
                                    at_least(
                                        number(limits.final_error),
                                        reprojection_error(camera, pose, c.0, c.1),
                                    ),
                            );
                            &&& answer is Some
                            &&& (answer->0).0 == pose
                            &&& (answer->0).1 == fitting.len()
                        },
                    }
                }
        }),
{
    let flags = fit_flags(camera, pose_init, world, image, limits.prior_error);
    lemma_fits_as_pairs(camera, pose_init, world, image, limits.prior_error);
    if world.len() >= min_correspondences && count_set(flags) >= min_correspondences {
        let refined = choose|refined: Option<Pose3d>|
            {
                &&& #[trigger] may_refine(
                    camera,
                    kept(world, flags),
                    kept(image.take(world.len() as int), flags),
                    pose_init,
                    refined,
                )
                &&& answer == scored(camera, world, image, refined, limits.final_error)
            };
        if refined is Some {
            lemma_fits_as_pairs(camera, refined->0, world, image, limits.final_error);
            crate::selection::lemma_kept_len(
                world,
                fit_flags(camera, refined->0, world, image, limits.final_error),
            );
        }
        assert(may_refine(
            camera,
            kept(world, flags),
            kept(image.take(world.len() as int), flags),
            pose_init,
            refined,
        ));
    }
}

/// The number of inliers is the number of correspondences whose error is within the limit.
pub proof fn lemma_inlier_count(
    camera: PinholeCamera,
    pose: Pose3d,
    world: Seq<Vec3F64>,
    image: Seq<Vec2F32>,
    limit: u64,
)
    requires
        world.len() <= image.len(),
    ensures
        count_set(fit_flags(camera, pose, world, image, limit)) == paired(world, image).filter(
            |c: (Vec3F64, Vec2F32)|
                at_least(number(limit), reprojection_error(camera, pose, c.0, c.1)),
        ).len(),
{
    lemma_fits_as_pairs(camera, pose, world, image, limit);
}

} // verus!
