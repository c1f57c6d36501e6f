//! New map points: the first map, and growth from a pair of keyframes.

use crate::descriptor::{can_match, match_orb, orb_matches};
use crate::double::{above, at_least, is_above, is_at_least, number};
use crate::estimation::two_view::{
    are_in_range, is_two_view, solve_two_view, undistort_pairs, undistorted_pairs, TwoViewSolution,
    MIN_DEPTH,
};
use crate::frame::{count_keypoints, descriptors, descriptors_of, keypoint_count, Frame};
use crate::geometry::{
    depth_bits, depth_of, divide, divided, inverse_pose, invert, length_bits, length_of, relate,
    relative_pose, transform, transformed, translation, translation_of,
};
use crate::mapping::map::{no_links, upserted, Keyframe, MapPoint, SlamMap};
use crate::selection::indices_where;
use kornia_3d::camera::PinholeCamera;
use kornia_3d::pose::{Pose3d, TriangulationConfig};
use kornia_algebra::{Vec2F64, Vec3F64};
use kornia_imgproc::features::{OrbFeatures, OrbMatchConfig};
use vstd::prelude::*;

verus! {

/// Fewest matches between two keyframes from which new points are looked for.
pub const MIN_GROWTH_MATCHES: usize = 20;

/// Fewest matches without a map point from which the two-view geometry is estimated.
pub const MIN_GROWTH_PAIRS: usize = 8;

/// Fewest two-view inliers from which new points are triangulated.
pub const MIN_GROWTH_INLIERS: usize = 15;

/// The bits of a hundred-millionth: cameras no further apart are at the same place.
pub const MIN_BASELINE: u64 = 0x3e45_798e_e230_8c3a;

/// The bits of a quarter: rays that pass further from each other show no point.
pub const MAX_TRIANGULATION_GAP: u64 = 0x3fd0_0000_0000_0000;

/// The bits of nine, the square of the largest acceptable reprojection error in pixels.
pub const MAX_SQUARED_ERROR: u64 = 0x4022_0000_0000_0000;

/// A point that was just seen for the first time.
pub open spec fn fresh_point(position: Vec3F64, descriptor: [u8; 32], kf: usize) -> MapPoint {
    MapPoint { position, descriptor, keyframe_idx: kf, n_visible: 1, n_found: 1, culled: false }
}

/// Inlier `k` names a match whose two descriptors both have a slot.
pub open spec fn has_slots(
    matches: Seq<(usize, usize)>,
    inliers: Seq<usize>,
    n_ref: nat,
    n_cur: nat,
    k: int,
) -> bool {
    &&& inliers[k] < matches.len()
    &&& matches[inliers[k] as int].0 < n_ref
    &&& matches[inliers[k] as int].1 < n_cur
}

/// Positions of the inliers that become map points, ascending. `n` is how many inliers
/// come with a point.
pub open spec fn placed(
    n: nat,
    matches: Seq<(usize, usize)>,
    inliers: Seq<usize>,
    n_ref: nat,
    n_cur: nat,
) -> Seq<usize> {
    indices_where(n, |k: int| has_slots(matches, inliers, n_ref, n_cur, k))
}

/// `n` slots, of which slot `targets[j]` was set to point `base + j`, for each `j` in turn.
pub open spec fn linked(n: nat, targets: Seq<usize>, base: nat) -> Seq<Option<usize>>
    decreases targets.len(),
{
    if targets.len() == 0 {
        no_links(n)
    } else {
        linked(n, targets.drop_last(), base).update(
            targets.last() as int,
            Some((base + targets.len() - 1) as usize),
        )
    }
}

/// What the first map holds after two frames were joined into `before`.
pub open spec fn initialized(
    before: SlamMap,
    after: SlamMap,
    reference: Frame,
    current: Frame,
    matches: Seq<(usize, usize)>,
    points: Seq<Vec3F64>,
    inliers: Seq<usize>,
) -> bool {
    let n_ref = descriptors_of(reference.features).len();
    let n_cur = descriptors_of(current.features).len();
    let n = if points.len() < inliers.len() {
        points.len()
    } else {
        inliers.len()
    };
    let taken = placed(n, matches, inliers, n_ref, n_cur);
    let base = before.pts().len();
    let new_point = |k: usize|
        fresh_point(
            transformed(inverse_pose(reference.pose_world_to_cam), points[k as int]),
            descriptors_of(current.features)[matches[inliers[k as int] as int].1 as int],
            reference.idx,
        );
    &&& after.pts() == before.pts() + taken.map_values(new_point)
    &&& exists|reference_kf: Keyframe, current_kf: Keyframe|
        {
            &&& reference_kf.frame == reference
            &&& current_kf.frame == current
            &&& reference_kf.map_point_by_desc_idx@ == linked(
                n_ref,
                taken.map_values(|k: usize| matches[inliers[k as int] as int].0),
                base,
            )
            &&& current_kf.map_point_by_desc_idx@ == linked(
                n_cur,
                taken.map_values(|k: usize| matches[inliers[k as int] as int].1),
                base,
            )
            &&& after.kfs() == #[trigger] upserted(
                #[trigger] upserted(before.kfs(), reference_kf),
                current_kf,
            )
        }
}

/// The points divided by the median depth, where there is one that is not tiny.
pub open spec fn to_scale(points: Seq<Vec3F64>, median_depth: Option<Vec3F64>) -> Seq<Vec3F64> {
    if median_depth is Some && above(depth_of(median_depth->0), number(MIN_DEPTH)) {
        points.map_values(|point: Vec3F64| divided(point, median_depth->0))
    } else {
        points
    }
}

fn scale_points(points: &[Vec3F64], median_depth: Option<Vec3F64>) -> (scaled: Vec<Vec3F64>)
    ensures
        scaled@ == to_scale(points@, median_depth),
{
    let usable = match &median_depth {
        None => false,
        Some(depth) => is_above(depth_bits(depth), MIN_DEPTH),
    };
    let mut scaled: Vec<Vec3F64> = Vec::new();
    let mut i: usize = 0;
    while i < points.len()
        invariant
            i <= points@.len(),
            usable == (median_depth is Some && above(
                depth_of(median_depth->0),
                number(MIN_DEPTH),
            )),
            scaled@ == to_scale(points@.take(i as int), median_depth),
        decreases points@.len() - i,
    {
        let point = match &median_depth {
            Some(depth) if usable => divide(&points[i], depth),
            _ => points[i],
        };
        scaled.push(point);
        i += 1;
        assert(scaled@ =~= to_scale(points@.take(i as int), median_depth));
    }
    assert(points@.take(i as int) =~= points@);
    scaled
}

/// Build the initial map from a successful bootstrap step.
///
/// `points3d` are the triangulated points in the camera frame of `reference_frame`; point `k`
/// belongs to match `inlier_indices[k]`. They are divided by the median depth, that of the
/// point `median_depth`. Returns the number of map points added.
pub fn build_initial_map(
    map: &mut SlamMap,
    reference_frame: Frame,
    current_frame: Frame,
    matches: &[(usize, usize)],
    points3d: &[Vec3F64],
    inlier_indices: &[usize],
    median_depth: Option<Vec3F64>,
) -> (added: usize)
    ensures
        initialized(
            *old(map),
            *final(map),
            reference_frame,
            current_frame,
            matches@,
            to_scale(points3d@, median_depth),
            inlier_indices@,
        ),
        added == final(map).pts().len() - old(map).pts().len(),
{
    let points = scale_points(points3d, median_depth);
    place_points(
        map,
        reference_frame,
        current_frame,
        matches,
        points.as_slice(),
        inlier_indices,
    )
}

/// Makes map points of points that are at the scale of the map, and links the two frames to
/// them.
fn place_points(
    map: &mut SlamMap,
    reference_frame: Frame,
    current_frame: Frame,
    matches: &[(usize, usize)],
    points: &[Vec3F64],
    inlier_indices: &[usize],
) -> (added: usize)
    ensures
        initialized(
            *old(map),
            *final(map),
            reference_frame,
            current_frame,
            matches@,
            points@,
            inlier_indices@,
        ),
        added == final(map).pts().len() - old(map).pts().len(),
{
    let ghost before = *map;
    let ghost base = before.pts().len();
    let reference_pose_inv = invert(&reference_frame.pose_world_to_cam);
    let mut reference_kf = Keyframe::from_frame(reference_frame);
    let mut current_kf = Keyframe::from_frame(current_frame);
    let ghost n_ref = descriptors_of(reference_frame.features).len();
    let ghost n_cur = descriptors_of(current_frame.features).len();
    let n: usize = if points.len() < inlier_indices.len() {
        points.len()
    } else {
        inlier_indices.len()
    };
    let ghost new_point = |k: usize|
        fresh_point(
            transformed(inverse_pose(reference_frame.pose_world_to_cam), points@[k as int]),
            descriptors_of(current_frame.features)[matches@[inlier_indices@[k as int] as int].1 as int],
            reference_frame.idx,
        );
    let ghost to_ref = |k: usize| matches@[inlier_indices@[k as int] as int].0;
    let ghost to_cur = |k: usize| matches@[inlier_indices@[k as int] as int].1;
    let ghost mut taken: Seq<usize> = Seq::empty();
    let mut added: usize = 0;
    let mut k: usize = 0;
    proof {
        assert(map.pts() =~= before.pts() + taken.map_values(new_point));
        assert(taken.map_values(to_ref) =~= Seq::empty());
        assert(taken.map_values(to_cur) =~= Seq::empty());
    }
    while k < n
        invariant
            k <= n,
            n <= points@.len(),
            n <= inlier_indices@.len(),
            n_ref == descriptors_of(reference_frame.features).len(),
            n_cur == descriptors_of(current_frame.features).len(),
            base == before.pts().len(),
            reference_pose_inv == inverse_pose(reference_frame.pose_world_to_cam),
            taken == placed(k as nat, matches@, inlier_indices@, n_ref, n_cur),
            taken.len() == added,
            added <= k,
            map.kfs() == before.kfs(),
            map.pts() == before.pts() + taken.map_values(new_point),
            reference_kf.frame == reference_frame,
            current_kf.frame == current_frame,
            reference_kf.map_point_by_desc_idx@ == linked(n_ref, taken.map_values(to_ref), base),
            current_kf.map_point_by_desc_idx@ == linked(n_cur, taken.map_values(to_cur), base),
            reference_kf.map_point_by_desc_idx@.len() == n_ref,
            current_kf.map_point_by_desc_idx@.len() == n_cur,
            new_point == (|k: usize|
                fresh_point(
                    transformed(
                        inverse_pose(reference_frame.pose_world_to_cam),
                        points@[k as int],
                    ),
                    descriptors_of(current_frame.features)[matches@[inlier_indices@[k as int] as int].1 as int],
                    reference_frame.idx,
                )),
            to_ref == (|k: usize| matches@[inlier_indices@[k as int] as int].0),
            to_cur == (|k: usize| matches@[inlier_indices@[k as int] as int].1),
        decreases n - k,
    {
        let match_idx: usize = inlier_indices[k];
        if match_idx < matches.len() {
            let r: usize = matches[match_idx].0;
            let c: usize = matches[match_idx].1;
            if r < reference_kf.map_point_by_desc_idx.len() && c
                < current_kf.map_point_by_desc_idx.len() {
                let descriptor: [u8; 32] = descriptors(&current_kf.frame.features)[c];
                let position = transform(&reference_pose_inv, &points[k]);
                let mp_idx: usize = map.push_map_point(
                    MapPoint {
                        position,
                        descriptor,
                        keyframe_idx: reference_kf.frame.idx,
                        n_visible: 1,
                        n_found: 1,
                        culled: false,
                    },
                );
                reference_kf.map_point_by_desc_idx.set(r, Some(mp_idx));
                current_kf.map_point_by_desc_idx.set(c, Some(mp_idx));
                added += 1;
                proof {
                    let next = taken.push(k);
                    assert(next.map_values(new_point) =~= taken.map_values(new_point).push(
                        new_point(k),
                    ));
                    assert(next.map_values(to_ref) =~= taken.map_values(to_ref).push(r));
                    assert(next.map_values(to_cur) =~= taken.map_values(to_cur).push(c));
                    assert(next.map_values(to_ref).drop_last() =~= taken.map_values(to_ref));
                    assert(next.map_values(to_cur).drop_last() =~= taken.map_values(to_cur));
                    assert(map.pts() =~= before.pts() + next.map_values(new_point));
                    taken = next;
                }
            }
        }
        k += 1;
    }
    let ghost reference_link = reference_kf;
    let ghost current_link = current_kf;
    map.upsert_keyframe(reference_kf);
    map.upsert_keyframe(current_kf);
    assert(map.kfs() == upserted(upserted(before.kfs(), reference_link), current_link));
    added
}

/// Every filled slot refers to one of the points that were placed for it, and every slot
/// for which a point was placed is filled.
pub proof fn lemma_linked(n: nat, targets: Seq<usize>, base: nat)
    requires
        forall|j: int| 0 <= j < targets.len() ==> #[trigger] targets[j] < n,
        base + targets.len() <= usize::MAX,
    ensures
        linked(n, targets, base).len() == n,
        forall|d: int|
            0 <= d < n && (#[trigger] linked(n, targets, base)[d]) is Some ==> {
                let i = linked(n, targets, base)[d]->0 as int;
                base <= i < base + targets.len() && targets[i - base] == d
            },
        forall|j: int|
            0 <= j < targets.len() ==> linked(n, targets, base)[#[trigger] targets[j] as int] is Some,
    decreases targets.len(),
{
    if targets.len() > 0 {
        let head = targets.drop_last();
        assert forall|j: int| 0 <= j < head.len() implies #[trigger] head[j] < n by {
            assert(head[j] == targets[j]);
        }
        lemma_linked(n, head, base);
        assert forall|j: int| 0 <= j < targets.len() implies linked(
            n,
            targets,
            base,
        )[#[trigger] targets[j] as int] is Some by {
            if j < head.len() {
                assert(linked(n, head, base)[head[j] as int] is Some);
            }
        }
        assert forall|d: int|
            0 <= d < n && (#[trigger] linked(n, targets, base)[d]) is Some implies {
            let i = linked(n, targets, base)[d]->0 as int;
            base <= i < base + targets.len() && targets[i - base] == d
        } by {
            if d != targets.last() {
                assert(linked(n, head, base)[d] is Some);
                let i = linked(n, head, base)[d]->0 as int;
                assert(head[i - base] == targets[i - base]);
            }
        }
    }
}

/// How the pixels of a pair are seen: `ray` gives the direction of an undistorted pixel in
/// the camera frame, `parallax` the angle in degrees, by its bits, at which a point in the
/// previous camera frame is seen from two cameras at a relative pose, where the point is not
/// at the second camera, and `min_parallax` is the smallest acceptable angle, by its bits.
pub struct Sight<R: Fn(&Vec2F64) -> Vec3F64, P: Fn(&Pose3d, &Vec3F64) -> Option<u64>> {
    pub ray: R,
    pub parallax: P,
    pub min_parallax: u64,
}

/// The point and the gap that `triangulate_midpoint_known_pose` returns for two rays, the gap
/// as an integer that orders as it does; `None` for it where it is not a number.
pub uninterp spec fn midpoint(
    first: Vec3F64,
    second: Vec3F64,
    relative: Pose3d,
) -> Option<(Vec3F64, Option<int>)>;

/// The squared error that `PinholeCamera::reprojection_error_sq_cam` returns for a point in
/// the camera frame and a pixel, as an integer that orders as it does; `None` for it where it
/// is not a number.
pub uninterp spec fn reprojection_error(
    camera: PinholeCamera,
    point: Vec3F64,
    pixel: Vec2F64,
) -> Option<Option<int>>;

/// `kornia_3d::pose::triangulate_midpoint_known_pose`: the point midway between two rays, and
/// by its bits the gap between them, where they meet in front of both cameras. They are a
/// function of the rays and the relative pose.
#[verifier::external_body]
fn triangulate_rays(first: &Vec3F64, second: &Vec3F64, relative: &Pose3d) -> (found: Option<
    (Vec3F64, u64),
>)
    ensures
        midpoint(*first, *second, *relative) == match found {
            None => None,
            Some((point, gap)) => Some((point, number(gap))),
        },
{
    let (r, t) = (&relative.rotation, &relative.translation);
    let found = kornia_3d::pose::triangulate_midpoint_known_pose(first, second, r, t);
    found.map(|(point, gap)| (point, gap.to_bits()))
}

/// `PinholeCamera::reprojection_error_sq_cam`: the squared distance of the image of a point
/// from a pixel, by its bits, where the point has an image. It is a function of the camera,
/// the point and the pixel.
#[verifier::external_body]
fn measure_error(camera: &PinholeCamera, point: &Vec3F64, pixel: &Vec2F64) -> (error: Option<u64>)
    ensures
        reprojection_error(*camera, *point, *pixel) == match error {
            None => None,
            Some(bits) => Some(number(bits)),
        },
{
    camera.reprojection_error_sq_cam(point, pixel.x, pixel.y).map(|error| error.to_bits())
}

/// The image of the point is not too far from the pixel.
pub open spec fn reprojects(camera: PinholeCamera, point: Vec3F64, pixel: Vec2F64) -> bool {
    match reprojection_error(camera, point, pixel) {
        None => false,
        Some(error) => !above(error, number(MAX_SQUARED_ERROR)),
    }
}

/// The rays pass close to each other, and the point is in front of both cameras.
pub open spec fn is_in_front(relative: Pose3d, point: Vec3F64, gap: Option<int>) -> bool {
    &&& !above(gap, number(MAX_TRIANGULATION_GAP))
    &&& !at_least(number(MIN_DEPTH), depth_of(point))
    &&& !at_least(number(MIN_DEPTH), depth_of(transformed(relative, point)))
}

/// The point is seen at an angle that is large enough.
pub open spec fn is_seen_apart<R, P>(sight: Sight<R, P>, angle: Option<u64>) -> bool where
    R: Fn(&Vec2F64) -> Vec3F64,
    P: Fn(&Pose3d, &Vec3F64) -> Option<u64>,
 {
    angle is Some && !above(number(sight.min_parallax), number(angle->0))
}

/// `shown` is the point that two pixels show, in the previous camera frame: the midpoint of
/// their rays, where it passes the tests on gap, depth, parallax and reprojection.
pub open spec fn is_triangulation<R, P>(
    sight: Sight<R, P>,
    camera: PinholeCamera,
    relative: Pose3d,
    prev: Vec2F64,
    curr: Vec2F64,
    shown: Option<Vec3F64>,
) -> bool where R: Fn(&Vec2F64) -> Vec3F64, P: Fn(&Pose3d, &Vec3F64) -> Option<u64> {
    exists|first: Vec3F64, second: Vec3F64|
        {
            &&& #[trigger] call_ensures(sight.ray, (&prev,), first)
            &&& #[trigger] call_ensures(sight.ray, (&curr,), second)
            &&& match midpoint(first, second, relative) {
                None => shown is None,
                Some((point, gap)) => if is_in_front(relative, point, gap) {
                    exists|angle: Option<u64>|
                        {
                            &&& #[trigger] call_ensures(sight.parallax, (&relative, &point), angle)
                            &&& shown == if is_seen_apart(sight, angle) && reprojects(
                                camera,
                                point,
                                prev,
                            ) && reprojects(camera, transformed(relative, point), curr) {
                                Some(point)
                            } else {
                                None
                            }
                        }
                } else {
                    shown is None
                },
            }
        }
}

fn is_reprojected(camera: &PinholeCamera, point: &Vec3F64, pixel: &Vec2F64) -> (close: bool)
    ensures
        close == reprojects(*camera, *point, *pixel),
{
    match measure_error(camera, point, pixel) {
        None => false,
        Some(error) => !is_above(error, MAX_SQUARED_ERROR),
    }
}

/// The point that two undistorted pixels show, in the previous camera frame, where it passes
/// the tests on gap, depth, parallax and reprojection.
pub fn triangulate_pair<R, P>(
    sight: &Sight<R, P>,
    camera: &PinholeCamera,
    relative: &Pose3d,
    prev: &Vec2F64,
    curr: &Vec2F64,
) -> (shown: Option<Vec3F64>) where
    R: Fn(&Vec2F64) -> Vec3F64,
    P: Fn(&Pose3d, &Vec3F64) -> Option<u64>,

    requires
        forall|pixel: &Vec2F64| call_requires(sight.ray, (pixel,)),
        forall|relative: &Pose3d, point: &Vec3F64| call_requires(sight.parallax, (relative, point)),
    ensures
        is_triangulation(*sight, *camera, *relative, *prev, *curr, shown),
{
    let first = (sight.ray)(prev);
    let second = (sight.ray)(curr);
    let (point, gap) = match triangulate_rays(&first, &second, relative) {
        None => {
            return None;
        },
        Some(found) => found,
    };
    let in_curr = transform(relative, &point);
    if is_above(gap, MAX_TRIANGULATION_GAP) || is_at_least(MIN_DEPTH, depth_bits(&point))
        || is_at_least(MIN_DEPTH, depth_bits(&in_curr)) {
        return None;
    }
    let angle = (sight.parallax)(relative, &point);
    let apart = match angle {
        None => false,
        Some(bits) => !is_above(sight.min_parallax, bits),
    };
    if apart && is_reprojected(camera, &point, prev) && is_reprojected(camera, &in_curr, curr) {
        Some(point)
    } else {
        None
    }
}

/// The pair names keypoints of both frames, and neither has a map point yet.
pub open spec fn is_growth_pair(
    n_prev: nat,
    n_curr: nat,
    prev_slots: Seq<Option<usize>>,
    curr_slots: Seq<Option<usize>>,
    pair: (usize, usize),
) -> bool {
    &&& pair.0 < n_prev
    &&& pair.1 < n_curr
    &&& is_open(curr_slots, pair.1)
    &&& is_open(prev_slots, pair.0)
}

/// The slot does not refer to a map point.
pub open spec fn is_open(slots: Seq<Option<usize>>, d: usize) -> bool {
    d < slots.len() ==> slots[d as int] is None
}

/// What was added so far: points, and the slots of the current keyframe.
pub struct Growth {
    pub points: Seq<MapPoint>,
    pub slots: Seq<Option<usize>>,
}

/// What growth starts from: the pairs of keypoints without a map point, their undistorted
/// pixels, the two-view inliers among them, the number of map points, the slots of the
/// current keyframe, the pose of the previous one, and the descriptors and the index of the
/// current one.
pub struct GrowthInput {
    pub pairs: Seq<(usize, usize)>,
    pub pixels: (Seq<Vec2F64>, Seq<Vec2F64>),
    pub inliers: Seq<usize>,
    pub base: nat,
    pub slots: Seq<Option<usize>>,
    pub prev_pose: Pose3d,
    pub held: Seq<[u8; 32]>,
    pub kf: usize,
}

/// Nothing was added.
pub open spec fn no_growth(slots: Seq<Option<usize>>) -> Growth {
    Growth { points: Seq::empty(), slots }
}

/// A point is asked for at inlier `k`: it names a pair whose current keypoint has no map
/// point yet.
pub open spec fn is_consulted(input: GrowthInput, so_far: Growth, k: int) -> bool {
    let i = input.inliers[k];
    i < input.pairs.len() && is_open(so_far.slots, input.pairs[i as int].1)
}

/// What the first `k` inliers add. `found[k]` is the point that was triangulated for
/// inlier `k`, if any, in the previous camera frame.
pub open spec fn grown(input: GrowthInput, found: Seq<Option<Vec3F64>>, k: nat) -> Growth
    decreases k,
{
    if k == 0 {
        no_growth(input.slots)
    } else {
        let so_far = grown(input, found, (k - 1) as nat);
        if is_consulted(input, so_far, k - 1) && found[k - 1] is Some {
            let c = input.pairs[input.inliers[k - 1] as int].1;
            let point = fresh_point(
                transformed(inverse_pose(input.prev_pose), found[k - 1]->0),
                input.held[c as int],
                input.kf,
            );
            let idx = (input.base + so_far.points.len()) as usize;
            if c < so_far.slots.len() {
                Growth {
                    points: so_far.points.push(point),
                    slots: so_far.slots.update(c as int, Some(idx)),
                }
            } else {
                Growth { points: so_far.points.push(point), ..so_far }
            }
        } else {
            so_far
        }
    }
}

/// `found` answers every question that growth asks: it is what the pixels of the pair show.
pub open spec fn answers<R: Fn(&Vec2F64) -> Vec3F64, P: Fn(&Pose3d, &Vec3F64) -> Option<u64>>(
    sight: Sight<R, P>,
    camera: PinholeCamera,
    relative: Pose3d,
    input: GrowthInput,
    found: Seq<Option<Vec3F64>>,
) -> bool {
    forall|j: int|
        0 <= j < found.len() && is_consulted(input, grown(input, found, j as nat), j)
            ==> is_triangulation(
            sight,
            camera,
            relative,
            input.pixels.0[input.inliers[j] as int],
            input.pixels.1[input.inliers[j] as int],
            #[trigger] found[j],
        )
}

/// The pairs of keypoints from which growth starts.
pub open spec fn pairs_of(
    prev_kf: Keyframe,
    features: OrbFeatures,
    slots: Seq<Option<usize>>,
    matches: Seq<(usize, usize)>,
) -> Seq<(usize, usize)> {
    matches.filter(
        |m: (usize, usize)|
            is_growth_pair(
                keypoint_count(prev_kf.frame.features),
                keypoint_count(features),
                prev_kf.map_point_by_desc_idx@,
                slots,
                m,
            ),
    )
}

/// There is enough to start from.
pub open spec fn can_grow(
    prev_kf: Keyframe,
    features: OrbFeatures,
    slots: Seq<Option<usize>>,
    matches: Seq<(usize, usize)>,
) -> bool {
    &&& matches.len() >= MIN_GROWTH_MATCHES
    &&& pairs_of(prev_kf, features, slots, matches).len() >= MIN_GROWTH_PAIRS
}

/// Two cameras at this relative pose are not at the same place.
pub open spec fn are_apart(relative: Pose3d) -> bool {
    !at_least(number(MIN_BASELINE), length_of(translation_of(relative)))
}

/// `growth` is what a pair of keyframes adds to a map of `base` points, where `estimate` are
/// the two-view inliers.
pub open spec fn is_growth_of<R, P>(
    sight: Sight<R, P>,
    camera: PinholeCamera,
    growth: Growth,
    base: nat,
    kf: usize,
    prev_kf: Keyframe,
    features: OrbFeatures,
    slots: Seq<Option<usize>>,
    pose: Pose3d,
    matches: Seq<(usize, usize)>,
    estimate: Option<Vec<usize>>,
) -> bool where R: Fn(&Vec2F64) -> Vec3F64, P: Fn(&Pose3d, &Vec3F64) -> Option<u64> {
    let prev_pose = prev_kf.frame.pose_world_to_cam;
    let relative = relative_pose(prev_pose, pose);
    if estimate is None || estimate->0@.len() < MIN_GROWTH_INLIERS {
        growth == no_growth(slots)
    } else {
        let inliers = estimate->0@;
        let pairs = pairs_of(prev_kf, features, slots, matches);
        let input = GrowthInput {
            pairs,
            pixels: undistorted_pairs(camera, prev_kf.frame.features, features, pairs),
            inliers,
            base,
            slots,
            prev_pose,
            held: descriptors_of(features),
            kf,
        };
        ||| !are_apart(relative) && growth == no_growth(slots)
        ||| are_apart(relative) && exists|
            found: Seq<Option<Vec3F64>>,
        |
            {
                &&& found.len() == inliers.len()
                &&& #[trigger] answers(sight, camera, relative, input, found)
                &&& growth == grown(input, found, inliers.len())
            }
    }
}

proof fn lemma_grown_prefix(
    input: GrowthInput,
    found: Seq<Option<Vec3F64>>,
    answer: Option<Vec3F64>,
    k: nat,
)
    requires
        k <= found.len(),
    ensures
        grown(input, found.push(answer), k) == grown(input, found, k),
    decreases k,
{
    if k > 0 {
        lemma_grown_prefix(input, found, answer, (k - 1) as nat);
        assert(found.push(answer)[k - 1] == found[k - 1]);
    }
}

/// Growth leaves filled slots and existing points alone: a slot that was filled keeps its
/// point, a slot that came to be filled refers to a new point, and every new point has
/// been seen once, in the current keyframe.
pub proof fn lemma_growth_only_adds(input: GrowthInput, found: Seq<Option<Vec3F64>>, k: nat)
    requires
        input.base + k <= usize::MAX,
    ensures
        ({
            let g = grown(input, found, k);
            &&& g.slots.len() == input.slots.len()
            &&& g.points.len() <= k
            &&& forall|d: int|
                0 <= d < input.slots.len() && input.slots[d] is Some ==> #[trigger] g.slots[d]
                    == input.slots[d]
            &&& forall|d: int|
                0 <= d < input.slots.len() && input.slots[d] is None && (
                #[trigger] g.slots[d]) is Some ==> input.base <= g.slots[d]->0 < input.base
                    + g.points.len()
            &&& forall|i: int|
                0 <= i < g.points.len() ==> {
                    &&& (#[trigger] g.points[i]).keyframe_idx == input.kf
                    &&& g.points[i].n_visible == 1
                    &&& g.points[i].n_found == 1
                    &&& !g.points[i].culled
                }
        }),
    decreases k,
{
    if k > 0 {
        let m = (k - 1) as nat;
        lemma_growth_only_adds(input, found, m);
        let g0 = grown(input, found, m);
        let g = grown(input, found, k);
        let slots = input.slots;
        assert forall|d: int| 0 <= d < slots.len() && slots[d] is Some implies #[trigger] g.slots[d]
            == slots[d] by {
            assert(g0.slots[d] == slots[d]);
        }
        assert forall|d: int|
            0 <= d < slots.len() && slots[d] is None && (
            #[trigger] g.slots[d]) is Some implies input.base <= g.slots[d]->0 < input.base
            + g.points.len() by {
            if g0.slots[d] is Some {
                assert(input.base <= g0.slots[d]->0 < input.base + g0.points.len());
            }
        }
        assert forall|i: int| 0 <= i < g.points.len() implies {
            &&& (#[trigger] g.points[i]).keyframe_idx == input.kf
            &&& g.points[i].n_visible == 1
            &&& g.points[i].n_found == 1
            &&& !g.points[i].culled
        } by {
            if i < g0.points.len() {
                assert(g0.points[i].keyframe_idx == input.kf);
            }
        }
    }
}

fn slot_is_open(slots: &Vec<Option<usize>>, d: usize) -> (open: bool)
    ensures
        open == is_open(slots@, d),
{
    d >= slots.len() || slots[d].is_none()
}

/// The matches between keypoints of which neither has a map point yet.
pub fn growth_pairs(
    matches: &[(usize, usize)],
    prev_kf: &Keyframe,
    curr_features: &OrbFeatures,
    curr_slots: &Vec<Option<usize>>,
) -> (pairs: Vec<(usize, usize)>)
    ensures
        pairs@ == pairs_of(*prev_kf, *curr_features, curr_slots@, matches@),
{
    let n_prev: usize = count_keypoints(&prev_kf.frame.features);
    let n_curr: usize = count_keypoints(curr_features);
    let prev_slots = &prev_kf.map_point_by_desc_idx;
    let ghost keep = |m: (usize, usize)|
        is_growth_pair(
            keypoint_count(prev_kf.frame.features),
            keypoint_count(*curr_features),
            prev_kf.map_point_by_desc_idx@,
            curr_slots@,
            m,
        );
    let mut pairs: Vec<(usize, usize)> = Vec::new();
    let mut i: usize = 0;
    proof {
        reveal(Seq::filter);
        assert(matches@.take(0).filter(keep) =~= Seq::empty());
    }
    while i < matches.len()
        invariant
            i <= matches@.len(),
            n_prev == keypoint_count(prev_kf.frame.features),
            n_curr == keypoint_count(*curr_features),
            *prev_slots == prev_kf.map_point_by_desc_idx,
            pairs@ == matches@.take(i as int).filter(keep),
            keep == (|m: (usize, usize)|
                is_growth_pair(
                    keypoint_count(prev_kf.frame.features),
                    keypoint_count(*curr_features),
                    prev_kf.map_point_by_desc_idx@,
                    curr_slots@,
                    m,
                )),
        decreases matches@.len() - i,
    {
        let pair: (usize, usize) = matches[i];
        if pair.0 < n_prev && pair.1 < n_curr && slot_is_open(curr_slots, pair.1)
            && slot_is_open(prev_slots, pair.0) {
            pairs.push(pair);
        }
        proof {
            reveal(Seq::filter);
            assert(matches@.take(i + 1).drop_last() =~= matches@.take(i as int));
        }
        i += 1;
    }
    assert(matches@.take(i as int) =~= matches@);
    pairs
}

/// Triangulates new map points from a pair of keyframes, given the two-view inliers.
///
/// `matches` pairs the keypoints of `prev_kf` with those of `curr_features`, and `pairs` are
/// those of which neither keypoint has a map point yet. `inliers` are the positions in
/// `pairs` that fit one two-view geometry, where a proper one was found. Returns the number of
/// new map points added.
pub fn grow_from_inliers<R, P>(
    map: &mut SlamMap,
    camera: &PinholeCamera,
    curr_kf_idx: usize,
    prev_kf: &Keyframe,
    curr_features: &OrbFeatures,
    curr_kf_map_assoc: &mut Vec<Option<usize>>,
    pose_world_to_cam: &Pose3d,
    matches: &[(usize, usize)],
    pairs: &Vec<(usize, usize)>,
    estimate: Option<Vec<usize>>,
    sight: &Sight<R, P>,
) -> (added: usize) where
    R: Fn(&Vec2F64) -> Vec3F64,
    P: Fn(&Pose3d, &Vec3F64) -> Option<u64>,

    requires
        forall|i: int|
            0 <= i < pairs@.len() ==> (#[trigger] pairs@[i]).1 < descriptors_of(
                *curr_features,
            ).len(),
        pairs@ == pairs_of(*prev_kf, *curr_features, old(curr_kf_map_assoc)@, matches@),
        forall|pixel: &Vec2F64| call_requires(sight.ray, (pixel,)),
        forall|relative: &Pose3d, point: &Vec3F64| call_requires(sight.parallax, (relative, point)),
    ensures
        final(map).kfs() == old(map).kfs(),
        added == final(map).pts().len() - old(map).pts().len(),
        exists|growth: Growth|
            {
                &&& #[trigger] is_growth_of(
                    *sight,
                    *camera,
                    growth,
                    old(map).pts().len(),
                    curr_kf_idx,
                    *prev_kf,
                    *curr_features,
                    old(curr_kf_map_assoc)@,
                    *pose_world_to_cam,
                    matches@,
                    estimate,
                )
                &&& final(map).pts() == old(map).pts() + growth.points
                &&& final(curr_kf_map_assoc)@ == growth.slots
                &&& added == growth.points.len()
            },
{
    let ghost before = *map;
    let ghost base = before.pts().len();
    let ghost slots = curr_kf_map_assoc@;
    let ghost relative = relative_pose(prev_kf.frame.pose_world_to_cam, *pose_world_to_cam);
    let ghost result = |growth: Growth|
        is_growth_of(
            *sight,
            *camera,
            growth,
            base,
            curr_kf_idx,
            *prev_kf,
            *curr_features,
            slots,
            *pose_world_to_cam,
            matches@,
            estimate,
        );
    assert(map.pts() =~= before.pts() + no_growth(slots).points);
    let inliers: Vec<usize> = match estimate {
        Some(inliers) => inliers,
        None => {
            assert(result(no_growth(slots)));
            return 0;
        },
    };
    if inliers.len() < MIN_GROWTH_INLIERS {
        assert(result(no_growth(slots)));
        return 0;
    }
    let prev_pose = prev_kf.frame.pose_world_to_cam;
    let relative_pose = relate(&prev_pose, pose_world_to_cam);
    if is_at_least(MIN_BASELINE, length_bits(&translation(&relative_pose))) {
        assert(result(no_growth(slots)));
        return 0;
    }
    let prev_pose_inv = invert(&prev_pose);
    let held = descriptors(curr_features);
    let pixels = undistort_pairs(camera, &prev_kf.frame.features, curr_features, pairs);
    let ghost keep = |m: (usize, usize)|
        is_growth_pair(
            keypoint_count(prev_kf.frame.features),
            keypoint_count(*curr_features),
            prev_kf.map_point_by_desc_idx@,
            slots,
            m,
        );
    assert(are_in_range(prev_kf.frame.features, *curr_features, pairs@)) by {
        assert forall|i: int| 0 <= i < pairs@.len() implies keep(#[trigger] pairs@[i]) by {
            matches@.lemma_filter_pred(keep, i);
        }
    }
    let ghost input = GrowthInput {
        pairs: pairs@,
        pixels: (pixels.0@, pixels.1@),
        inliers: inliers@,
        base,
        slots,
        prev_pose,
        held: held@,
        kf: curr_kf_idx,
    };
    let ghost mut found: Seq<Option<Vec3F64>> = Seq::empty();
    let mut added: usize = 0;
    let mut k: usize = 0;
    while k < inliers.len()
        invariant
            k <= inliers@.len(),
            found.len() == k,
            forall|i: int|
                0 <= i < pairs@.len() ==> (#[trigger] pairs@[i]).1 < descriptors_of(
                    *curr_features,
                ).len(),
            held@ == descriptors_of(*curr_features),
            keep == (|m: (usize, usize)|
                is_growth_pair(
                    keypoint_count(prev_kf.frame.features),
                    keypoint_count(*curr_features),
                    prev_kf.map_point_by_desc_idx@,
                    slots,
                    m,
                )),
            pairs@ == matches@.filter(keep),
            forall|pixel: &Vec2F64| call_requires(sight.ray, (pixel,)),
            forall|relative: &Pose3d, point: &Vec3F64|
                call_requires(sight.parallax, (relative, point)),
            prev_pose_inv == inverse_pose(prev_pose),
            relative_pose == relative,
            base == before.pts().len(),
            pixels.0@.len() == pairs@.len(),
            pixels.1@.len() == pairs@.len(),
            input == (GrowthInput {
                pairs: pairs@,
                pixels: (pixels.0@, pixels.1@),
                inliers: inliers@,
                base,
                slots,
                prev_pose,
                held: held@,
                kf: curr_kf_idx,
            }),
            map.kfs() == before.kfs(),
            map.pts() == before.pts() + grown(input, found, k as nat).points,
            curr_kf_map_assoc@ == grown(input, found, k as nat).slots,
            added == grown(input, found, k as nat).points.len(),
            added <= k,
            answers(*sight, *camera, relative, input, found),
        decreases inliers@.len() - k,
    {
        let i: usize = inliers[k];
        let ghost found0 = found;
        let ghost so_far = grown(input, found0, k as nat);
        let ghost mut answer: Option<Vec3F64> = None;
        if i < pairs.len() && slot_is_open(curr_kf_map_assoc, pairs[i].1) {
            let pair: (usize, usize) = pairs[i];
            proof {
                matches@.lemma_filter_pred(keep, i as int);
            }
            let point = triangulate_pair(
                sight,
                camera,
                &relative_pose,
                &pixels.0[i],
                &pixels.1[i],
            );
            proof {
                answer = point;
            }
            if let Some(p_cam) = point {
                let position = transform(&prev_pose_inv, &p_cam);
                let mp_idx: usize = map.push_map_point(
                    MapPoint {
                        position,
                        descriptor: held[pair.1],
                        keyframe_idx: curr_kf_idx,
                        n_visible: 1,
                        n_found: 1,
                        culled: false,
                    },
                );
                if pair.1 < curr_kf_map_assoc.len() {
                    curr_kf_map_assoc.set(pair.1, Some(mp_idx));
                }
                added += 1;
            }
        }
        proof {
            found = found0.push(answer);
            assert forall|j: nat| j <= k implies #[trigger] grown(input, found, j) == grown(
                input,
                found0,
                j,
            ) by {
                lemma_grown_prefix(input, found0, answer, j);
            }
            assert(answers(*sight, *camera, relative, input, found)) by {
                assert forall|j: int|
                    0 <= j < found.len() && is_consulted(
                        input,
                        grown(input, found, j as nat),
                        j,
                    ) implies is_triangulation(
                    *sight,
                    *camera,
                    relative,
                    input.pixels.0[input.inliers[j] as int],
                    input.pixels.1[input.inliers[j] as int],
                    #[trigger] found[j],
                ) by {
                    assert(grown(input, found, j as nat) == grown(input, found0, j as nat));
                    if j < k {
                        assert(found[j] == found0[j]);
                    }
                }
            }
            assert(grown(input, found, k as nat) == so_far);
            assert(map.pts() =~= before.pts() + grown(input, found, (k + 1) as nat).points);
        }
        k += 1;
    }
    assert(result(grown(input, found, inliers@.len())));
    added
}

/// The inliers of a solution that has the fundamental model.
pub open spec fn epipolar_inliers(found: Option<TwoViewSolution>) -> Option<Vec<usize>> {
    match found {
        Some(solution) if solution.is_fundamental => Some(solution.inlier_indices),
        _ => None,
    }
}

/// Triangulate new map points from a pair of keyframes.
///
/// Matches the descriptors of `prev_kf` with those of `curr_features`; pairs of which a
/// keypoint has a map point already are left out. Two-view estimation tells which of the
/// others fit one epipolar geometry, and those are triangulated. Returns the number of new map
/// points added.
pub fn grow_map_points_from_keyframe_pair<R, P>(
    map: &mut SlamMap,
    camera: &PinholeCamera,
    curr_kf_idx: usize,
    prev_kf: &Keyframe,
    curr_features: &OrbFeatures,
    curr_kf_map_assoc: &mut Vec<Option<usize>>,
    pose_world_to_cam: &Pose3d,
    match_config: &OrbMatchConfig,
    triangulation: &TriangulationConfig,
    sight: &Sight<R, P>,
) -> (added: usize) where
    R: Fn(&Vec2F64) -> Vec3F64,
    P: Fn(&Pose3d, &Vec3F64) -> Option<u64>,

    requires
        can_match(prev_kf.frame.features, *curr_features, *match_config),
        forall|pixel: &Vec2F64| call_requires(sight.ray, (pixel,)),
        forall|relative: &Pose3d, point: &Vec3F64| call_requires(sight.parallax, (relative, point)),
    ensures
        final(map).kfs() == old(map).kfs(),
        added == final(map).pts().len() - old(map).pts().len(),
        !can_grow(
            *prev_kf,
            *curr_features,
            old(curr_kf_map_assoc)@,
            orb_matches(prev_kf.frame.features, *curr_features, *match_config),
        ) ==> {
            &&& *final(map) == *old(map)
            &&& final(curr_kf_map_assoc)@ == old(curr_kf_map_assoc)@
            &&& added == 0
        },
        exists|growth: Growth, found: Option<TwoViewSolution>|
            {
                &&& #[trigger] is_growth_of(
                    *sight,
                    *camera,
                    growth,
                    old(map).pts().len(),
                    curr_kf_idx,
                    *prev_kf,
                    *curr_features,
                    old(curr_kf_map_assoc)@,
                    *pose_world_to_cam,
                    orb_matches(prev_kf.frame.features, *curr_features, *match_config),
                    epipolar_inliers(found),
                )
                &&& can_grow(
                    *prev_kf,
                    *curr_features,
                    old(curr_kf_map_assoc)@,
                    orb_matches(prev_kf.frame.features, *curr_features, *match_config),
                ) ==> is_two_view(
                    *camera,
                    *triangulation,
                    prev_kf.frame.features,
                    *curr_features,
                    pairs_of(
                        *prev_kf,
                        *curr_features,
                        old(curr_kf_map_assoc)@,
                        orb_matches(prev_kf.frame.features, *curr_features, *match_config),
                    ),
                    found,
                )
                &&& final(map).pts() == old(map).pts() + growth.points
                &&& final(curr_kf_map_assoc)@ == growth.slots
                &&& added == growth.points.len()
            },
{
    let ghost slots = curr_kf_map_assoc@;
    let matches = match_orb(&prev_kf.frame.features, curr_features, match_config);
    let pairs = growth_pairs(matches.as_slice(), prev_kf, curr_features, curr_kf_map_assoc);
    if matches.len() < MIN_GROWTH_MATCHES || pairs.len() < MIN_GROWTH_PAIRS {
        assert(map.pts() =~= map.pts() + no_growth(slots).points);
        assert(is_growth_of(
            *sight,
            *camera,
            no_growth(slots),
            map.pts().len(),
            curr_kf_idx,
            *prev_kf,
            *curr_features,
            slots,
            *pose_world_to_cam,
            matches@,
            epipolar_inliers(None),
        ));
        return 0;
    }
    proof {
        let keep = |m: (usize, usize)|
            is_growth_pair(
                keypoint_count(prev_kf.frame.features),
                keypoint_count(*curr_features),
                prev_kf.map_point_by_desc_idx@,
                slots,
                m,
            );
        assert forall|i: int| 0 <= i < pairs@.len() implies (#[trigger] pairs@[i]).1
            < descriptors_of(*curr_features).len() by {
            assert(pairs@.contains(pairs@[i]));
            matches@.lemma_filter_contains_rev(keep, pairs@[i]);
        }
    }
    let found = solve_two_view(
        camera,
        triangulation,
        &prev_kf.frame.features,
        curr_features,
        &pairs,
    );
    let ghost solved = found;
    let estimate = match found {
        Some(solution) if solution.is_fundamental => Some(solution.inlier_indices),
        _ => None,
    };
    assert(estimate == epipolar_inliers(solved));
    grow_from_inliers(
        map,
        camera,
        curr_kf_idx,
        prev_kf,
        curr_features,
        curr_kf_map_assoc,
        pose_world_to_cam,
        matches.as_slice(),
        &pairs,
        estimate,
        sight,
    )
}

/// No later place has the same target.
pub open spec fn is_last_target(targets: Seq<usize>, j: int) -> bool {
    forall|h: int| j < h < targets.len() ==> #[trigger] targets[h] != targets[j]
}

/// A slot refers to the last of the points that were placed for it, and a slot for which none
/// was placed to none.
pub proof fn lemma_linked_last(n: nat, targets: Seq<usize>, base: nat)
    requires
        forall|j: int| 0 <= j < targets.len() ==> #[trigger] targets[j] < n,
        base + targets.len() <= usize::MAX,
    ensures
        linked(n, targets, base).len() == n,
        forall|j: int|
            0 <= j < targets.len() && #[trigger] is_last_target(targets, j) ==> linked(
                n,
                targets,
                base,
            )[targets[j] as int] == Some((base + j) as usize),
        forall|d: int|
            0 <= d < n && !targets.contains(d as usize) ==> (#[trigger] linked(
                n,
                targets,
                base,
            )[d]) is None,
    decreases targets.len(),
{
    if targets.len() > 0 {
        let head = targets.drop_last();
        assert forall|j: int| 0 <= j < head.len() implies #[trigger] head[j] < n by {
            assert(head[j] == targets[j]);
        }
        lemma_linked_last(n, head, base);
        let last = targets.len() - 1;
        assert forall|j: int| 0 <= j < targets.len() && #[trigger] is_last_target(
            targets,
            j,
        ) implies linked(n, targets, base)[targets[j] as int] == Some((base + j) as usize) by {
            if j < last {
                assert(targets[last] != targets[j]);
                assert(head[j] == targets[j]);
                assert(is_last_target(head, j)) by {
                    assert forall|h: int| j < h < head.len() implies #[trigger] head[h]
                        != head[j] by {
                        assert(targets[h] != targets[j]);
                    }
                }
            }
        }
        assert forall|d: int| 0 <= d < n && !targets.contains(d as usize) implies (
        #[trigger] linked(n, targets, base)[d]) is None by {
            assert(targets[last] != d);
            if head.contains(d as usize) {
                let j = choose|j: int| 0 <= j < head.len() && head[j] == d as usize;
                assert(targets[j] == d as usize);
            }
        }
    }
}

/// The slots `slots` link each named descriptor to the point placed last for it: `target(j)` is
/// the descriptor of new point `j`, of which there are `n`.
pub open spec fn links_points(
    slots: Seq<Option<usize>>,
    target: spec_fn(int) -> usize,
    n: nat,
    base: nat,
) -> bool {
    &&& forall|j: int|
        {
            &&& 0 <= j < n
            &&& forall|h: int| j < h < n ==> #[trigger] target(h) != target(j)
        } ==> slots[#[trigger] target(j) as int] == Some((base + j) as usize)
    &&& forall|d: int|
        0 <= d < slots.len() && (forall|j: int| 0 <= j < n ==> #[trigger] target(j) != d) ==> (
        #[trigger] slots[d]) is None
}

proof fn lemma_links_points(
    n_slots: nat,
    targets: Seq<usize>,
    base: nat,
    target: spec_fn(int) -> usize,
)
    requires
        n_slots <= usize::MAX,
        base + targets.len() <= usize::MAX,
        forall|j: int|
            0 <= j < targets.len() ==> #[trigger] targets[j] < n_slots && targets[j] == target(j),
    ensures
        linked(n_slots, targets, base).len() == n_slots,
        links_points(linked(n_slots, targets, base), target, targets.len(), base),
{
    lemma_linked_last(n_slots, targets, base);
    let slots = linked(n_slots, targets, base);
    let n = targets.len();
    assert forall|j: int|
        {
            &&& 0 <= j < n
            &&& forall|h: int| j < h < n ==> #[trigger] target(h) != target(j)
        } implies slots[#[trigger] target(j) as int] == Some((base + j) as usize) by {
        assert(targets[j] == target(j));
        assert forall|h: int| j < h < n implies #[trigger] targets[h] != targets[j] by {
            assert(target(h) != target(j));
        }
        assert(is_last_target(targets, j));
    }
    assert forall|d: int|
        0 <= d < slots.len() && (forall|j: int| 0 <= j < n ==> #[trigger] target(j) != d) implies (
    #[trigger] slots[d]) is None by {
        if targets.contains(d as usize) {
            let j = choose|j: int| 0 <= j < n && targets[j] == d as usize;
            assert(target(j) == d);
        }
    }
}

/// The first map keeps the points that were there and adds one for each inlier whose match names
/// a descriptor of both frames, in order. The pose of the reference frame takes the point from
/// its camera into the world, the descriptor is the one of the current frame, and the point
/// was seen and found once. Both frames become keyframes, the reference first, and each is
/// linked to the new points by its own side of the matches.
pub proof fn lemma_initialized(
    before: SlamMap,
    after: SlamMap,
    reference: Frame,
    current: Frame,
    matches: Seq<(usize, usize)>,
    points: Seq<Vec3F64>,
    inliers: Seq<usize>,
    n: nat,
)
    requires
        initialized(before, after, reference, current, matches, points, inliers),
        n <= points.len(),
        n <= inliers.len(),
        n == points.len() || n == inliers.len(),
        before.pts().len() + inliers.len() <= usize::MAX,
        descriptors_of(reference.features).len() <= usize::MAX,
        descriptors_of(current.features).len() <= usize::MAX,
    ensures
        ({
            let n_ref = descriptors_of(reference.features).len();
            let n_cur = descriptors_of(current.features).len();
            let taken = indices_where(
                n,
                |k: int|
                    inliers[k] < matches.len() && matches[inliers[k] as int].0 < n_ref
                        && matches[inliers[k] as int].1 < n_cur,
            );
            let base = before.pts().len();
            &&& after.pts().len() == base + taken.len()
            &&& forall|i: int| 0 <= i < base ==> #[trigger] after.pts()[i] == before.pts()[i]
            &&& forall|j: int|
                0 <= j < taken.len() ==> {
                    let k = (#[trigger] taken[j]) as int;
                    let mp = after.pts()[base + j];
                    &&& mp.position == transformed(
                        inverse_pose(reference.pose_world_to_cam),
                        points[k],
                    )
                    &&& mp.descriptor == descriptors_of(
                        current.features,
                    )[matches[inliers[k] as int].1 as int]
                    &&& mp.keyframe_idx == reference.idx
                    &&& mp.n_visible == 1
                    &&& mp.n_found == 1
                    &&& !mp.culled
                }
            &&& exists|reference_kf: Keyframe, current_kf: Keyframe|
                {
                    &&& reference_kf.frame == reference
                    &&& current_kf.frame == current
                    &&& after.kfs() == #[trigger] upserted(
                        #[trigger] upserted(before.kfs(), reference_kf),
                        current_kf,
                    )
                    &&& reference_kf.map_point_by_desc_idx@.len() == n_ref
                    &&& links_points(
                        reference_kf.map_point_by_desc_idx@,
                        |j: int| matches[inliers[taken[j] as int] as int].0,
                        taken.len(),
                        base,
                    )
                    &&& current_kf.map_point_by_desc_idx@.len() == n_cur
                    &&& links_points(
                        current_kf.map_point_by_desc_idx@,
                        |j: int| matches[inliers[taken[j] as int] as int].1,
                        taken.len(),
                        base,
                    )
                }
        }),
{
    let n_ref = descriptors_of(reference.features).len();
    let n_cur = descriptors_of(current.features).len();
    let takes = |k: int|
        inliers[k] < matches.len() && matches[inliers[k] as int].0 < n_ref
            && matches[inliers[k] as int].1 < n_cur;
    let taken = indices_where(n, takes);
    let base = before.pts().len();
    let has = |k: int| has_slots(matches, inliers, n_ref, n_cur, k);
    crate::selection::lemma_indices_where_agree(n, has, takes);
    crate::selection::lemma_indices_where(n, takes);
    assert(taken == placed(n, matches, inliers, n_ref, n_cur));
    let (reference_kf, current_kf) = choose|reference_kf: Keyframe, current_kf: Keyframe|
        {
            &&& reference_kf.frame == reference
            &&& current_kf.frame == current
            &&& reference_kf.map_point_by_desc_idx@ == linked(
                n_ref,
                taken.map_values(|k: usize| matches[inliers[k as int] as int].0),
                base,
            )
            &&& current_kf.map_point_by_desc_idx@ == linked(
                n_cur,
                taken.map_values(|k: usize| matches[inliers[k as int] as int].1),
                base,
            )
            &&& after.kfs() == #[trigger] upserted(
                #[trigger] upserted(before.kfs(), reference_kf),
                current_kf,
            )
        };
    assert forall|j: int| 0 <= j < taken.len() implies takes((#[trigger] taken[j]) as int) by {}
    lemma_links_points(
        n_ref,
        taken.map_values(|k: usize| matches[inliers[k as int] as int].0),
        base,
        |j: int| matches[inliers[taken[j] as int] as int].0,
    );
    lemma_links_points(
        n_cur,
        taken.map_values(|k: usize| matches[inliers[k as int] as int].1),
        base,
        |j: int| matches[inliers[taken[j] as int] as int].1,
    );
}

/// The points of the first map are divided by the median depth where that is more than a
/// millionth, each by it, and are left as they are where it is not.
pub proof fn lemma_to_scale(points: Seq<Vec3F64>, median_depth: Option<Vec3F64>)
    ensures
        to_scale(points, median_depth).len() == points.len(),
        forall|i: int|
            0 <= i < points.len() ==> #[trigger] to_scale(points, median_depth)[i] == (
            match median_depth {
                Some(depth) if depth_of(depth) is Some && depth_of(depth)->0
                    > 0x3eb0_c6f7_a0b5_ed8d => divided(points[i], depth),
                _ => points[i],
            }),
{
}

/// A point that two pixels show is the midpoint of the ray of the pixel in the previous camera
/// and that of the pixel in the current one. The rays pass within a quarter of each other, the
/// point is more than a millionth in front of both cameras, it is seen at an angle that is not
/// too small, and in each camera its image is within three pixels of the pixel there.
pub proof fn lemma_triangulation<R, P>(
    sight: Sight<R, P>,
    camera: PinholeCamera,
    relative: Pose3d,
    prev: Vec2F64,
    curr: Vec2F64,
    point: Vec3F64,
) where R: Fn(&Vec2F64) -> Vec3F64, P: Fn(&Pose3d, &Vec3F64) -> Option<u64>
    requires
        is_triangulation(sight, camera, relative, prev, curr, Some(point)),
    ensures
        exists|first: Vec3F64, second: Vec3F64|
            {
                &&& #[trigger] call_ensures(sight.ray, (&prev,), first)
                &&& #[trigger] call_ensures(sight.ray, (&curr,), second)
                &&& midpoint(first, second, relative) is Some
                &&& (midpoint(first, second, relative)->0).0 == point
                &&& (midpoint(first, second, relative)->0).1 matches Some(gap) ==> gap
                    <= 0x3fd0_0000_0000_0000
            },
        depth_of(point) matches Some(depth) ==> depth > 0x3eb0_c6f7_a0b5_ed8d,
        depth_of(transformed(relative, point)) matches Some(depth) ==> depth
            > 0x3eb0_c6f7_a0b5_ed8d,
        exists|angle: u64|
            {
                &&& #[trigger] call_ensures(sight.parallax, (&relative, &point), Some(angle))
                &&& !above(number(sight.min_parallax), number(angle))
            },
        reprojection_error(camera, point, prev) is Some,
        reprojection_error(camera, point, prev)->0 matches Some(error) ==> error
            <= 0x4022_0000_0000_0000,
        reprojection_error(camera, transformed(relative, point), curr) is Some,
        reprojection_error(camera, transformed(relative, point), curr)->0 matches Some(error)
            ==> error <= 0x4022_0000_0000_0000,
{
    let (first, second) = choose|first: Vec3F64, second: Vec3F64|
        {
            &&& #[trigger] call_ensures(sight.ray, (&prev,), first)
            &&& #[trigger] call_ensures(sight.ray, (&curr,), second)
            &&& midpoint(first, second, relative) is Some
            &&& is_in_front(
                relative,
                (midpoint(first, second, relative)->0).0,
                (midpoint(first, second, relative)->0).1,
            )
            &&& exists|angle: Option<u64>|
                {
                    &&& #[trigger] call_ensures(
                        sight.parallax,
                        (&relative, &(midpoint(first, second, relative)->0).0),
                        angle,
                    )
                    &&& is_seen_apart(sight, angle)
                    &&& reprojects(camera, point, prev)
                    &&& reprojects(camera, transformed(relative, point), curr)
                    &&& point == (midpoint(first, second, relative)->0).0
                }
        };
    let angle = choose|angle: Option<u64>|
        {
            &&& #[trigger] call_ensures(sight.parallax, (&relative, &point), angle)
            &&& is_seen_apart(sight, angle)
        };
    assert(angle == Some(angle->0));
    assert(call_ensures(sight.parallax, (&relative, &point), Some(angle->0)));
    assert(midpoint(first, second, relative) is Some);
}

/// Two pixels always show a point that passes all tests: where both rays and the angle can only
/// be told in one way, and the midpoint of the rays is near both, in front of both cameras, seen
/// apart and near both pixels, it is shown.
pub proof fn lemma_triangulation_is_owed<R, P>(
    sight: Sight<R, P>,
    camera: PinholeCamera,
    relative: Pose3d,
    prev: Vec2F64,
    curr: Vec2F64,
    shown: Option<Vec3F64>,
    first: Vec3F64,
    second: Vec3F64,
    point: Vec3F64,
    gap: int,
    angle: u64,
    error: int,
    other_error: int,
) where R: Fn(&Vec2F64) -> Vec3F64, P: Fn(&Pose3d, &Vec3F64) -> Option<u64>
    requires
        is_triangulation(sight, camera, relative, prev, curr, shown),
        forall|ray: Vec3F64| #[trigger]
            call_ensures(sight.ray, (&prev,), ray) ==> ray == first,
        forall|ray: Vec3F64| #[trigger]
            call_ensures(sight.ray, (&curr,), ray) ==> ray == second,
        midpoint(first, second, relative) == Some((point, Some(gap))),
        gap <= 0x3fd0_0000_0000_0000,
        above(depth_of(point), Some(0x3eb0_c6f7_a0b5_ed8d)),
        above(depth_of(transformed(relative, point)), Some(0x3eb0_c6f7_a0b5_ed8d)),
        forall|said: Option<u64>| #[trigger]
            call_ensures(sight.parallax, (&relative, &point), said) ==> said == Some(angle),
        at_least(number(angle), number(sight.min_parallax)),
        reprojection_error(camera, point, prev) == Some(Some(error)),
        error <= 0x4022_0000_0000_0000,
        reprojection_error(camera, transformed(relative, point), curr) == Some(
            Some(other_error),
        ),
        other_error <= 0x4022_0000_0000_0000,
    ensures
        shown == Some(point),
{
}

/// New point `i` comes from inlier `k`.
pub open spec fn is_grown_from(
    input: GrowthInput,
    found: Seq<Option<Vec3F64>>,
    g: Growth,
    i: int,
    k: int,
) -> bool {
    let pair = input.pairs[input.inliers[k] as int];
    &&& input.inliers[k] < input.pairs.len()
    &&& found[k] is Some
    &&& is_consulted(input, grown(input, found, k as nat), k)
    &&& g.points[i].position == transformed(inverse_pose(input.prev_pose), found[k]->0)
    &&& g.points[i].descriptor == input.held[pair.1 as int]
    &&& pair.1 < input.slots.len() ==> g.slots[pair.1 as int] == Some((input.base + i) as usize)
}

/// New point `i` comes from one of the first `n` inliers.
pub open spec fn has_origin(
    input: GrowthInput,
    found: Seq<Option<Vec3F64>>,
    g: Growth,
    i: int,
    n: nat,
) -> bool {
    exists|k: int| 0 <= k < n && #[trigger] is_grown_from(input, found, g, i, k)
}

/// Every new point comes from an inlier for which a point was found: the pose of the previous
/// keyframe takes that point from its camera into the world, the descriptor is the one of the
/// current keypoint of the pair, and the slot of that keypoint refers to the new point.
pub proof fn lemma_grown_points(input: GrowthInput, found: Seq<Option<Vec3F64>>, k: nat)
    requires
        input.base + k <= usize::MAX,
        k <= found.len(),
    ensures
        grown(input, found, k).slots.len() == input.slots.len(),
        grown(input, found, k).points.len() <= k,
        forall|i: int|
            0 <= i < grown(input, found, k).points.len() ==> #[trigger] has_origin(
                input,
                found,
                grown(input, found, k),
                i,
                k,
            ),
    decreases k,
{
    if k > 0 {
        let m = (k - 1) as nat;
        lemma_grown_points(input, found, m);
        let g0 = grown(input, found, m);
        let g = grown(input, found, k);
        assert forall|i: int| 0 <= i < g.points.len() implies #[trigger] has_origin(
            input,
            found,
            g,
            i,
            k,
        ) by {
            if i < g0.points.len() {
                assert(has_origin(input, found, g0, i, m));
                let h = choose|h: int|
                    0 <= h < m && #[trigger] is_grown_from(input, found, g0, i, h);
                let c = input.pairs[input.inliers[h] as int].1;
                assert(g.points[i] == g0.points[i]);
                if is_consulted(input, g0, m as int) && c < input.slots.len() {
                    let d = input.pairs[input.inliers[m as int] as int].1;
                    assert(g0.slots[c as int] is Some);
                    assert(d < g0.slots.len() ==> g0.slots[d as int] is None);
                    assert(c != d);
                }
                assert(is_grown_from(input, found, g, i, h));
            } else {
                assert(is_grown_from(input, found, g, i, m as int));
            }
        }
    }
}

/// An inlier adds a point where one was found for it, unless the current keypoint of its pair
/// has a point by then: from before, or from an earlier inlier.
pub proof fn lemma_growth_is_owed(
    input: GrowthInput,
    found: Seq<Option<Vec3F64>>,
    k: nat,
    h: int,
)
    requires
        input.base + k <= usize::MAX,
        k <= found.len(),
        0 <= h < k,
        input.inliers[h] < input.pairs.len(),
        found[h] is Some,
        input.pairs[input.inliers[h] as int].1 < input.slots.len(),
        input.slots[input.pairs[input.inliers[h] as int].1 as int] is None,
    ensures
        grown(input, found, k).slots[input.pairs[input.inliers[h] as int].1 as int] is Some,
    decreases k,
{
    let m = (k - 1) as nat;
    lemma_growth_only_adds(input, found, m);
    let g0 = grown(input, found, m);
    if h < m {
        lemma_growth_is_owed(input, found, m, h);
    }
}

/// The pairs from which growth starts are the matches, in order, of keypoints that both exist
/// and of which neither has a map point.
pub proof fn lemma_growth_pairs(
    prev_kf: Keyframe,
    features: OrbFeatures,
    slots: Seq<Option<usize>>,
    matches: Seq<(usize, usize)>,
)
    ensures
        pairs_of(prev_kf, features, slots, matches) == matches.filter(
            |m: (usize, usize)|
                {
                    &&& m.0 < keypoint_count(prev_kf.frame.features)
                    &&& m.1 < keypoint_count(features)
                    &&& m.0 < prev_kf.map_point_by_desc_idx@.len()
                        ==> prev_kf.map_point_by_desc_idx@[m.0 as int] is None
                    &&& m.1 < slots.len() ==> slots[m.1 as int] is None
                },
        ),
    decreases matches.len(),
{
    reveal(Seq::filter);
    if matches.len() > 0 {
        lemma_growth_pairs(prev_kf, features, slots, matches.drop_last());
    }
}

/// Growth adds points only where there are at least fifteen inliers and the two cameras are
/// apart. Each is what a pair of undistorted pixels shows to the camera, seen from the previous
/// pose and from the one that is current relative to it, brought into the world by the previous
/// pose, with the descriptor of the current keypoint of the pair.
pub proof fn lemma_growth_is_triangulated<R, P>(
    sight: Sight<R, P>,
    camera: PinholeCamera,
    growth: Growth,
    base: nat,
    kf: usize,
    prev_kf: Keyframe,
    features: OrbFeatures,
    slots: Seq<Option<usize>>,
    pose: Pose3d,
    matches: Seq<(usize, usize)>,
    estimate: Option<Vec<usize>>,
    i: int,
) where R: Fn(&Vec2F64) -> Vec3F64, P: Fn(&Pose3d, &Vec3F64) -> Option<u64>
    requires
        is_growth_of(
            sight,
            camera,
            growth,
            base,
            kf,
            prev_kf,
            features,
            slots,
            pose,
            matches,
            estimate,
        ),
        estimate is Some ==> base + estimate->0@.len() <= usize::MAX,
        0 <= i < growth.points.len(),
    ensures
        estimate is Some,
        estimate->0@.len() >= 15,
        length_of(
            translation_of(relative_pose(prev_kf.frame.pose_world_to_cam, pose)),
        ) matches Some(baseline) ==> baseline > 0x3e45_798e_e230_8c3a,
        exists|k: int, point: Vec3F64|
            {
                let pairs = pairs_of(prev_kf, features, slots, matches);
                let pixels = undistorted_pairs(camera, prev_kf.frame.features, features, pairs);
                let p = estimate->0@[k] as int;
                &&& 0 <= k < estimate->0@.len()
                &&& p < pairs.len()
                &&& #[trigger] is_triangulation(
                    sight,
                    camera,
                    relative_pose(prev_kf.frame.pose_world_to_cam, pose),
                    undistorted_pairs(
                        camera,
                        prev_kf.frame.features,
                        features,
                        pairs_of(prev_kf, features, slots, matches),
                    ).0[estimate->0@[k] as int],
                    undistorted_pairs(
                        camera,
                        prev_kf.frame.features,
                        features,
                        pairs_of(prev_kf, features, slots, matches),
                    ).1[estimate->0@[k] as int],
                    Some(point),
                )
                &&& growth.points[i].position == transformed(
                    inverse_pose(prev_kf.frame.pose_world_to_cam),
                    point,
                )
                &&& growth.points[i].descriptor == descriptors_of(features)[pairs[p].1 as int]
                &&& growth.points[i].keyframe_idx == kf
            },
{
    let prev_pose = prev_kf.frame.pose_world_to_cam;
    let relative = relative_pose(prev_pose, pose);
    let inliers = estimate->0@;
    let pairs = pairs_of(prev_kf, features, slots, matches);
    let input = GrowthInput {
        pairs,
        pixels: undistorted_pairs(camera, prev_kf.frame.features, features, pairs),
        inliers,
        base,
        slots,
        prev_pose,
        held: descriptors_of(features),
        kf,
    };
    let found = choose|found: Seq<Option<Vec3F64>>|
        {
            &&& found.len() == inliers.len()
            &&& #[trigger] answers(sight, camera, relative, input, found)
            &&& growth == grown(input, found, inliers.len())
        };
    lemma_grown_points(input, found, inliers.len());
    lemma_growth_only_adds(input, found, inliers.len());
    assert(has_origin(input, found, growth, i, inliers.len()));
    let k = choose|k: int|
        0 <= k < inliers.len() && #[trigger] is_grown_from(input, found, growth, i, k);
    let point = found[k]->0;
    assert(found[k] == Some(point));
    assert(is_triangulation(
        sight,
        camera,
        relative,
        input.pixels.0[inliers[k] as int],
        input.pixels.1[inliers[k] as int],
        Some(point),
    ));
    assert(growth.points[i].keyframe_idx == input.kf);
}

/// Growth is tried from twenty matches on, of which at least eight are of keypoints that both
/// exist and of which neither has a map point.
pub proof fn lemma_can_grow(
    prev_kf: Keyframe,
    features: OrbFeatures,
    slots: Seq<Option<usize>>,
    matches: Seq<(usize, usize)>,
)
    ensures
        can_grow(prev_kf, features, slots, matches) <==> matches.len() >= 20 && matches.filter(
            |m: (usize, usize)|
                {
                    &&& m.0 < keypoint_count(prev_kf.frame.features)
                    &&& m.1 < keypoint_count(features)
                    &&& m.0 < prev_kf.map_point_by_desc_idx@.len()
                        ==> prev_kf.map_point_by_desc_idx@[m.0 as int] is None
                    &&& m.1 < slots.len() ==> slots[m.1 as int] is None
                },
        ).len() >= 8,
{
    lemma_growth_pairs(prev_kf, features, slots, matches);
}

/// Only a solution with the fundamental model has inliers from which the map grows, and they are
/// its own.
pub proof fn lemma_epipolar_inliers(found: Option<TwoViewSolution>)
    ensures
        epipolar_inliers(found) is Some <==> found is Some && found->0.is_fundamental,
        epipolar_inliers(found) is Some ==> epipolar_inliers(found)->0@
            == found->0.inlier_indices@,
{
}

} // verus!
