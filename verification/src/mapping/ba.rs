//! Local bundle adjustment over the latest keyframes.
//!
//! Collects observations from recent keyframes, has poses and points optimized together,
//! and writes the result back into the map.

use crate::frame::{
    count_keypoints, keypoint_count, undistort_keypoint, undistorted_keypoint, Frame,
};
use crate::mapping::local_map::refers;
use crate::mapping::map::{Keyframe, MapPoint, SlamMap};
use crate::selection::{indices_where, lemma_indices_where};
use kornia_3d::ba::{BaObservation, BaParams};
use kornia_3d::camera::PinholeCamera;
use kornia_3d::pose::Pose3d;
use kornia_algebra::{Vec2F32, Vec3F64};
use vstd::prelude::*;

verus! {

/// How many of the latest keyframes are optimized.
pub const MAX_ACTIVE_KFS: usize = 3;

/// Fewest keyframes that are worth optimizing.
pub const MIN_KFS: usize = 2;

/// Fewest observations that are worth optimizing over.
pub const MIN_BA_OBSERVATIONS: usize = 8;

/// One observation: a pose sees a point at a pixel. With `fixed_pose` the pose is held.
#[derive(Debug, Clone, Copy)]
pub struct BaLink {
    pub pose_idx: usize,
    pub point_idx: usize,
    pub pixel: Vec2F32,
    pub fixed_pose: bool,
}

/// What is optimized: the poses of all keyframes, the points that the latest keyframes see,
/// and who sees what where.
#[derive(Debug)]
pub struct BaProblem {
    pub poses: Vec<Pose3d>,
    pub points: Vec<Vec3F64>,
    pub links: Vec<BaLink>,
}

/// Poses and points after optimization.
#[derive(Debug)]
pub struct BaSolution {
    pub poses: Vec<Pose3d>,
    pub points: Vec<Vec3F64>,
}

/// A problem, and where its parts belong in the map: keyframes from `active_start` on are
/// optimized, and point `l` of the problem is map point `globals[l]`.
#[derive(Debug)]
pub struct LocalWindow {
    pub active_start: usize,
    pub globals: Vec<usize>,
    pub problem: BaProblem,
}

/// First of the keyframes that are optimized.
pub open spec fn window_start(n_kfs: nat) -> nat {
    if n_kfs > MAX_ACTIVE_KFS {
        (n_kfs - MAX_ACTIVE_KFS) as nat
    } else {
        0
    }
}

/// Map point `i` is not culled, and one of the keyframes from `start` to `end` refers to it.
pub open spec fn in_window(map: SlamMap, start: nat, end: nat, i: int) -> bool {
    &&& !map.pts()[i].culled
    &&& exists|k: int|
        start <= k < end && refers((#[trigger] map.kfs()[k]).map_point_by_desc_idx@, i)
}

/// The map points that are optimized, ascending.
pub open spec fn window_points(map: SlamMap) -> Seq<usize> {
    let n = map.kfs().len();
    indices_where(map.pts().len(), |i: int| in_window(map, window_start(n), n, i))
}

/// Descriptor `d` of the keyframe belongs to a keypoint that sees one of the points.
pub open spec fn is_site(kf: Keyframe, globals: Seq<usize>, d: int) -> bool {
    let slot = kf.map_point_by_desc_idx@[d];
    slot is Some && globals.contains(slot->0) && d < keypoint_count(kf.frame.features)
}

/// The keypoints of the keyframe that see one of the points, ascending.
pub open spec fn kf_sites(kf: Keyframe, globals: Seq<usize>) -> Seq<usize> {
    indices_where(kf.map_point_by_desc_idx@.len(), |d: int| is_site(kf, globals, d))
}

/// The keypoints of the first `n` keyframes that see one of the points: keyframe and
/// descriptor, in order.
pub open spec fn sites(kfs: Seq<Keyframe>, globals: Seq<usize>, n: nat) -> Seq<(usize, usize)>
    decreases n,
{
    if n == 0 {
        Seq::empty()
    } else {
        sites(kfs, globals, (n - 1) as nat) + kf_sites(kfs[n - 1], globals).map_values(
            |d: usize| ((n - 1) as usize, d),
        )
    }
}

/// `link` is the observation at a site.
pub open spec fn is_link(
    link: BaLink,
    site: (usize, usize),
    kfs: Seq<Keyframe>,
    globals: Seq<usize>,
    camera: PinholeCamera,
) -> bool {
    let slot = kfs[site.0 as int].map_point_by_desc_idx@[site.1 as int];
    &&& link.pose_idx == site.0
    &&& link.point_idx < globals.len()
    &&& slot == Some(globals[link.point_idx as int])
    &&& link.fixed_pose == (site.0 < window_start(kfs.len()))
    &&& link.pixel == undistorted_keypoint(
        camera,
        kfs[site.0 as int].frame.features,
        site.1 as int,
    )
}

/// `window` is the problem that the map poses.
pub open spec fn is_window(
    window: LocalWindow,
    map: SlamMap,
    camera: PinholeCamera,
) -> bool {
    let globals = window_points(map);
    let all = sites(map.kfs(), globals, map.kfs().len());
    &&& window.active_start == window_start(map.kfs().len())
    &&& window.globals@ == globals
    &&& window.problem.poses@ == map.kfs().map_values(|kf: Keyframe| kf.frame.pose_world_to_cam)
    &&& window.problem.points@ == globals.map_values(|i: usize| map.pts()[i as int].position)
    &&& window.problem.links@.len() == all.len()
    &&& forall|j: int|
        0 <= j < all.len() ==> is_link(
            #[trigger] window.problem.links@[j],
            all[j],
            map.kfs(),
            globals,
            camera,
        )
}

/// The map is worth optimizing: there are enough keyframes, the latest see a point, and
/// there are enough observations.
pub open spec fn worth_optimizing(map: SlamMap) -> bool {
    let globals = window_points(map);
    &&& map.kfs().len() >= MIN_KFS
    &&& globals.len() > 0
    &&& sites(map.kfs(), globals, map.kfs().len()).len() >= MIN_BA_OBSERVATIONS
}

/// The keyframes with the poses from `start` on replaced, as far as there are new ones.
pub open spec fn reposed(kfs: Seq<Keyframe>, start: nat, poses: Seq<Pose3d>) -> Seq<Keyframe> {
    Seq::new(
        kfs.len(),
        |k: int|
            if start <= k && k < poses.len() {
                (Keyframe {
                    frame: (Frame { pose_world_to_cam: poses[k], ..kfs[k].frame }),
                    ..kfs[k]
                })
            } else {
                kfs[k]
            },
    )
}

/// The map points with point `globals[l]` moved to `points[l]`, for each `l` below `n`.
pub open spec fn moved(
    pts: Seq<MapPoint>,
    globals: Seq<usize>,
    points: Seq<Vec3F64>,
    n: nat,
) -> Seq<MapPoint>
    decreases n,
{
    if n == 0 {
        pts
    } else {
        let g = globals[n - 1] as int;
        let before = moved(pts, globals, points, (n - 1) as nat);
        before.update(g, MapPoint { position: points[n - 1], ..before[g] })
    }
}

/// The solution can be written back: it has no pose too many and no point too few.
pub open spec fn is_solution(solution: BaSolution, n_poses: nat, n_points: nat) -> bool {
    solution.poses@.len() <= n_poses && solution.points@.len() >= n_points
}

/// The solution, if there is one, has as many poses and points as the problem.
pub open spec fn has_all(solution: Option<BaSolution>, problem: BaProblem) -> bool {
    solution is Some ==> {
        &&& solution->0.poses@.len() == problem.poses@.len()
        &&& solution->0.points@.len() == problem.points@.len()
    }
}

/// What no free observation touches is where it was: the poses that are held or see nothing,
/// and the points that nothing sees.
pub open spec fn keeps_held(solution: Option<BaSolution>, problem: BaProblem) -> bool {
    solution is Some ==> {
        &&& forall|i: int|
            0 <= i < problem.poses@.len() && !is_freed(problem, i)
                ==> #[trigger] solution->0.poses@[i] == problem.poses@[i]
        &&& forall|i: int|
            0 <= i < problem.points@.len() && !is_seen(problem, i)
                ==> #[trigger] solution->0.points@[i] == problem.points@[i]
    }
}

/// An observation of one of the points does not hold pose `i`.
pub open spec fn is_freed(problem: BaProblem, i: int) -> bool {
    exists|j: int|
        {
            &&& 0 <= j < problem.links@.len()
            &&& (#[trigger] problem.links@[j]).pose_idx == i
            &&& problem.links@[j].point_idx < problem.points@.len()
            &&& !problem.links@[j].fixed_pose
        }
}

/// One of the poses sees point `i`.
pub open spec fn is_seen(problem: BaProblem, i: int) -> bool {
    exists|j: int|
        {
            &&& 0 <= j < problem.links@.len()
            &&& (#[trigger] problem.links@[j]).point_idx == i
            &&& problem.links@[j].pose_idx < problem.poses@.len()
        }
}

/// On some machine, `kornia_3d::ba::bundle_adjust` gives `solution` for this problem.
pub uninterp spec fn may_adjust(
    camera: PinholeCamera,
    poses: Seq<Pose3d>,
    points: Seq<Vec3F64>,
    links: Seq<BaLink>,
    solution: Option<BaSolution>,
) -> bool;

/// `kornia_3d::ba::bundle_adjust` with its default parameters: where it succeeds it gives
/// as many poses and points as it was given, and leaves alone what no free observation
/// touches. Which solution it gives is stated only as one that it may give: the arithmetic
/// of the optimizer's linear solver depends on the machine.
#[verifier::external_body]
fn bundle_adjust(problem: &BaProblem, camera: &PinholeCamera) -> (solution: Option<BaSolution>)
    ensures
        may_adjust(*camera, problem.poses@, problem.points@, problem.links@, solution),
        has_all(solution, *problem),
        keeps_held(solution, *problem),
{
    let links: Vec<BaObservation> = problem.links.iter().map(|link| BaObservation {
        pose_idx: link.pose_idx,
        point_idx: link.point_idx,
        pixel: link.pixel.to_array(),
        fixed_pose: link.fixed_pose,
        ..BaObservation::default()
    }).collect();
    kornia_3d::ba::bundle_adjust(
        &problem.poses, &problem.points, &links, camera, &BaParams::default(),
    ).ok().map(|result| BaSolution { poses: result.poses, points: result.points })
}

/// `solution` is what bundle adjustment may give for the problem.
pub open spec fn is_adjustment(
    camera: PinholeCamera,
    problem: BaProblem,
    solution: Option<BaSolution>,
) -> bool {
    &&& may_adjust(camera, problem.poses@, problem.points@, problem.links@, solution)
    &&& has_all(solution, problem)
    &&& keeps_held(solution, problem)
}

/// Number of each map point within the window, if it is in there.
fn window_numbers(n: usize, globals: &Vec<usize>) -> (numbers: Vec<Option<usize>>)
    requires
        forall|l: int| 0 <= l < globals@.len() ==> #[trigger] globals@[l] < n,
        forall|l: int, m: int| 0 <= l < m < globals@.len() ==> globals@[l] < globals@[m],
    ensures
        numbers@.len() == n,
        forall|i: int|
            0 <= i < n ==> match #[trigger] numbers@[i] {
                Some(l) => l < globals@.len() && globals@[l as int] == i,
                None => !globals@.contains(i as usize),
            },
{
    let mut numbers: Vec<Option<usize>> = vec![None; n];
    let mut l: usize = 0;
    while l < globals.len()
        invariant
            l <= globals@.len(),
            numbers@.len() == n,
            forall|l: int| 0 <= l < globals@.len() ==> #[trigger] globals@[l] < n,
            forall|l: int, m: int| 0 <= l < m < globals@.len() ==> globals@[l] < globals@[m],
            forall|i: int|
                0 <= i < n && (#[trigger] numbers@[i]) is Some ==> numbers@[i]->0 < l
                    && globals@[numbers@[i]->0 as int] == i,
            forall|m: int| 0 <= m < l ==> numbers@[#[trigger] globals@[m] as int] is Some,
        decreases globals@.len() - l,
    {
        numbers.set(globals[l], Some(l));
        l += 1;
    }
    numbers
}

/// Flags the map points that are in the window.
fn window_flags(map: &SlamMap, start: usize) -> (flags: Vec<bool>)
    requires
        start <= map.kfs().len(),
    ensures
        flags@.len() == map.pts().len(),
        forall|i: int|
            0 <= i < flags@.len() ==> #[trigger] flags@[i] == in_window(
                *map,
                start as nat,
                map.kfs().len(),
                i,
            ),
{
    let kfs = map.keyframes();
    let pts = map.map_points();
    let mut flags: Vec<bool> = vec![false; pts.len()];
    let mut k: usize = start;
    while k < kfs.len()
        invariant
            start <= k <= kfs@.len(),
            kfs@ == map.kfs(),
            pts@ == map.pts(),
            flags@.len() == pts@.len(),
            forall|i: int|
                0 <= i < flags@.len() ==> #[trigger] flags@[i] == in_window(
                    *map,
                    start as nat,
                    k as nat,
                    i,
                ),
        decreases kfs@.len() - k,
    {
        let ghost before = flags@;
        let slots = &kfs[k].map_point_by_desc_idx;
        let mut d: usize = 0;
        while d < slots.len()
            invariant
                start <= k < kfs@.len(),
                slots@ == kfs@[k as int].map_point_by_desc_idx@,
                d <= slots@.len(),
                pts@ == map.pts(),
                flags@.len() == pts@.len(),
                before.len() == pts@.len(),
                forall|i: int|
                    0 <= i < flags@.len() ==> (#[trigger] flags@[i] <==> before[i] || (
                    !pts@[i].culled && exists|e: int|
                        0 <= e < d && #[trigger] slots@[e] == Some(i as usize))),
            decreases slots@.len() - d,
        {
            let ghost inner = flags@;
            if let Some(i) = slots[d] {
                if i < pts.len() && !pts[i].culled {
                    flags.set(i, true);
                }
            }
            assert forall|i: int| 0 <= i < flags@.len() implies (#[trigger] flags@[i]
                <==> before[i] || (!pts@[i].culled && exists|e: int|
                0 <= e < d + 1 && #[trigger] slots@[e] == Some(i as usize))) by {
                assert(inner[i] <==> before[i] || (!pts@[i].culled && exists|e: int|
                    0 <= e < d && #[trigger] slots@[e] == Some(i as usize)));
                let now = slots@[d as int];
            }
            d += 1;
        }
        assert forall|i: int| 0 <= i < flags@.len() implies #[trigger] flags@[i] == in_window(
            *map,
            start as nat,
            (k + 1) as nat,
            i,
        ) by {
            assert(before[i] == in_window(*map, start as nat, k as nat, i));
            assert(flags@[i] <==> before[i] || (!pts@[i].culled && refers(slots@, i)));
            if refers(slots@, i) {
                assert(refers(map.kfs()[k as int].map_point_by_desc_idx@, i));
            }
        }
        k += 1;
    }
    flags
}

/// The problem that the map poses, if it is worth optimizing.
pub fn collect_window(map: &SlamMap, camera: &PinholeCamera) -> (window: Option<LocalWindow>)
    ensures
        window is Some <==> worth_optimizing(*map),
        window is Some ==> is_window(window->0, *map, *camera),
        window is Some ==> forall|l: int|
            0 <= l < window->0.globals@.len() ==> #[trigger] window->0.globals@[l]
                < map.pts().len(),
{
    let kfs = map.keyframes();
    let pts = map.map_points();
    let n: usize = kfs.len();
    if n < MIN_KFS {
        return None;
    }
    let active_start: usize = if n > MAX_ACTIVE_KFS {
        n - MAX_ACTIVE_KFS
    } else {
        0
    };
    let flags = window_flags(map, active_start);
    let mut globals: Vec<usize> = Vec::new();
    let mut points: Vec<Vec3F64> = Vec::new();
    let ghost pred = |i: int| in_window(*map, window_start(n as nat), n as nat, i);
    let mut i: usize = 0;
    while i < pts.len()
        invariant
            i <= pts@.len(),
            pts@ == map.pts(),
            n == map.kfs().len(),
            active_start == window_start(n as nat),
            flags@.len() == pts@.len(),
            pred == (|i: int| in_window(*map, window_start(n as nat), n as nat, i)),
            forall|i: int|
                0 <= i < flags@.len() ==> #[trigger] flags@[i] == in_window(
                    *map,
                    active_start as nat,
                    map.kfs().len(),
                    i,
                ),
            globals@ == indices_where(i as nat, pred),
            points@ == globals@.map_values(|i: usize| map.pts()[i as int].position),
        decreases pts@.len() - i,
    {
        if flags[i] {
            globals.push(i);
            points.push(pts[i].position);
        }
        assert(flags@[i as int] == pred(i as int));
        i += 1;
        assert(points@ =~= globals@.map_values(|i: usize| map.pts()[i as int].position));
    }
    assert(globals@ == window_points(*map));
    if globals.is_empty() {
        return None;
    }
    proof {
        lemma_indices_where(pts@.len(), pred);
    }
    let numbers = window_numbers(pts.len(), &globals);
    let mut poses: Vec<Pose3d> = Vec::new();
    let mut links: Vec<BaLink> = Vec::new();
    let mut k: usize = 0;
    while k < n
        invariant
            k <= n,
            n == kfs@.len(),
            kfs@ == map.kfs(),
            pts@ == map.pts(),
            active_start == window_start(n as nat),
            globals@ == window_points(*map),
            forall|l: int| 0 <= l < globals@.len() ==> #[trigger] globals@[l] < pts@.len(),
            numbers@.len() == pts@.len(),
            forall|i: int|
                0 <= i < numbers@.len() ==> match #[trigger] numbers@[i] {
                    Some(l) => l < globals@.len() && globals@[l as int] == i,
                    None => !globals@.contains(i as usize),
                },
            poses@ == kfs@.take(k as int).map_values(|kf: Keyframe| kf.frame.pose_world_to_cam),
            links@.len() == sites(kfs@, globals@, k as nat).len(),
            forall|j: int|
                0 <= j < links@.len() ==> is_link(
                    #[trigger] links@[j],
                    sites(kfs@, globals@, k as nat)[j],
                    kfs@,
                    globals@,
                    *camera,
                ),
        decreases n - k,
    {
        let kf = &kfs[k];
        poses.push(kf.frame.pose_world_to_cam);
        assert(poses@ =~= kfs@.take(k + 1).map_values(
            |kf: Keyframe| kf.frame.pose_world_to_cam,
        ));
        let n_keypoints: usize = count_keypoints(&kf.frame.features);
        let ghost done = sites(kfs@, globals@, k as nat);
        let ghost at = |d: usize| (k, d);
        let ghost here = |d: int| is_site(*kf, globals@, d);
        let slots = &kf.map_point_by_desc_idx;
        let mut d: usize = 0;
        assert(done + indices_where(0, here).map_values(at) =~= done);
        while d < slots.len()
            invariant
                k < n,
                n == kfs@.len(),
                *kf == kfs@[k as int],
                slots@ == kf.map_point_by_desc_idx@,
                d <= slots@.len(),
                n_keypoints == keypoint_count(kf.frame.features),
                active_start == window_start(n as nat),
                forall|l: int| 0 <= l < globals@.len() ==> #[trigger] globals@[l] < pts@.len(),
                numbers@.len() == pts@.len(),
                forall|i: int|
                    0 <= i < numbers@.len() ==> match #[trigger] numbers@[i] {
                        Some(l) => l < globals@.len() && globals@[l as int] == i,
                        None => !globals@.contains(i as usize),
                    },
                at == (|d: usize| (k, d)),
                here == (|d: int| is_site(*kf, globals@, d)),
                links@.len() == (done + indices_where(d as nat, here).map_values(at)).len(),
                forall|j: int|
                    0 <= j < links@.len() ==> is_link(
                        #[trigger] links@[j],
                        (done + indices_where(d as nat, here).map_values(at))[j],
                        kfs@,
                        globals@,
                        *camera,
                    ),
            decreases slots@.len() - d,
        {
            let ghost before = links@;
            let ghost list = done + indices_where(d as nat, here).map_values(at);
            let ghost next = done + indices_where((d + 1) as nat, here).map_values(at);
            let mut number: Option<usize> = None;
            if let Some(i) = slots[d] {
                if i < numbers.len() {
                    number = numbers[i];
                }
                assert(number is None ==> !globals@.contains(i));
            }
            if let Some(point_idx) = number {
                assert(globals@[point_idx as int] == slots@[d as int]->0);
                if d < n_keypoints {
                    let pixel = undistort_keypoint(camera, &kfs[k].frame.features, d);
                    links.push(
                        BaLink { pose_idx: k, point_idx, pixel, fixed_pose: k < active_start },
                    );
                    proof {
                        assert(here(d as int));
                        assert(next =~= list.push((k, d)));
                        assert forall|j: int| 0 <= j < links@.len() implies is_link(
                            #[trigger] links@[j],
                            next[j],
                            kfs@,
                            globals@,
                            *camera,
                        ) by {
                            if j < before.len() {
                                assert(links@[j] == before[j]);
                            }
                        }
                    }
                }
            }
            d += 1;
        }
        assert(kf_sites(kfs@[k as int], globals@) == indices_where(slots@.len(), here));
        assert(kf_sites(kfs@[k as int], globals@).map_values(at) =~= kf_sites(
            kfs@[k as int],
            globals@,
        ).map_values(|d: usize| ((k + 1 - 1) as usize, d)));
        k += 1;
    }
    assert(kfs@.take(k as int) =~= kfs@);
    if links.len() < MIN_BA_OBSERVATIONS {
        return None;
    }
    Some(LocalWindow { active_start, globals, problem: BaProblem { poses, points, links } })
}

fn write_poses(kfs: &mut Vec<Keyframe>, start: usize, poses: &Vec<Pose3d>)
    requires
        poses@.len() <= old(kfs)@.len(),
    ensures
        final(kfs)@ == reposed(old(kfs)@, start as nat, poses@),
{
    let ghost before = kfs@;
    let mut k: usize = start;
    while k < poses.len()
        invariant
            start <= k,
            kfs@.len() == before.len(),
            poses@.len() <= before.len(),
            forall|h: int|
                0 <= h < before.len() ==> #[trigger] kfs@[h] == (if h < k {
                    reposed(before, start as nat, poses@)[h]
                } else {
                    before[h]
                }),
        decreases poses@.len() - k,
    {
        kfs[k].frame.pose_world_to_cam = poses[k];
        k += 1;
    }
    assert(kfs@ =~= reposed(before, start as nat, poses@));
}

fn write_points(pts: &mut Vec<MapPoint>, globals: &Vec<usize>, points: &Vec<Vec3F64>)
    requires
        globals@.len() <= points@.len(),
        forall|l: int| 0 <= l < globals@.len() ==> #[trigger] globals@[l] < old(pts)@.len(),
    ensures
        final(pts)@ == moved(old(pts)@, globals@, points@, globals@.len()),
{
    let ghost before = pts@;
    let mut l: usize = 0;
    while l < globals.len()
        invariant
            l <= globals@.len(),
            globals@.len() <= points@.len(),
            pts@.len() == before.len(),
            forall|l: int| 0 <= l < globals@.len() ==> #[trigger] globals@[l] < before.len(),
            pts@ == moved(before, globals@, points@, l as nat),
        decreases globals@.len() - l,
    {
        let mut mp = pts[globals[l]];
        mp.position = points[l];
        pts.set(globals[l], mp);
        l += 1;
    }
}

/// Writes a solution back: the poses of the keyframes from `active_start` on, and the
/// positions of the points in the window.
pub fn write_back(map: &mut SlamMap, active_start: usize, globals: &Vec<usize>, solution: &BaSolution)
    requires
        is_solution(*solution, old(map).kfs().len(), globals@.len()),
        forall|l: int| 0 <= l < globals@.len() ==> #[trigger] globals@[l] < old(map).pts().len(),
    ensures
        final(map).kfs() == reposed(old(map).kfs(), active_start as nat, solution.poses@),
        final(map).pts() == moved(
            old(map).pts(),
            globals@,
            solution.points@,
            globals@.len(),
        ),
{
    write_poses(map.keyframes_mut(), active_start, &solution.poses);
    write_points(map.map_points_mut(), globals, &solution.points);
}

/// What local bundle adjustment makes of a map, given what the optimizer said.
pub open spec fn adjusted(before: SlamMap, after: SlamMap, solution: Option<BaSolution>) -> bool {
    let globals = window_points(before);
    match solution {
        None => after == before,
        Some(solution) => {
            &&& after.kfs() == reposed(
                before.kfs(),
                window_start(before.kfs().len()),
                solution.poses@,
            )
            &&& after.pts() == moved(before.pts(), globals, solution.points@, globals.len())
        },
    }
}

/// Local bundle adjustment with any optimizer.
///
/// `optimize` gets the problem that the map poses, where it is worth optimizing; what it
/// gives is written back.
pub fn run_local_ba_with<O>(map: &mut SlamMap, camera: &PinholeCamera, optimize: O) where
    O: Fn(&BaProblem) -> Option<BaSolution>,

    requires
        forall|problem: &BaProblem| call_requires(optimize, (problem,)),
        forall|problem: &BaProblem, solution: Option<BaSolution>|
            call_ensures(optimize, (problem,), solution) && solution is Some ==> is_solution(
                solution->0,
                problem.poses@.len(),
                problem.points@.len(),
            ),
    ensures
        !worth_optimizing(*old(map)) ==> *final(map) == *old(map),
        worth_optimizing(*old(map)) ==> exists|window: LocalWindow, solution: Option<BaSolution>|
            {
                &&& is_window(window, *old(map), *camera)
                &&& #[trigger] call_ensures(optimize, (&window.problem,), solution)
                &&& adjusted(*old(map), *final(map), solution)
            },
{
    let ghost before = *map;
    if let Some(window) = collect_window(map, camera) {
        let solution = optimize(&window.problem);
        if let Some(solved) = &solution {
            assert(call_ensures(optimize, (&window.problem,), solution));
            assert(solution is Some && *solved == solution->0);
            assert(is_solution(
                solution->0,
                window.problem.poses@.len(),
                window.problem.points@.len(),
            ));
            assert(window.problem.poses@.len() == before.kfs().len());
            assert(window.problem.points@.len() == window.globals@.len());
            write_back(map, window.active_start, &window.globals, solved);
        }
        assert(adjusted(before, *map, solution));
    }
}

/// Run local bundle adjustment over recent keyframes and their observed map points.
///
/// Collects the observations of the window, has `kornia_3d::ba::bundle_adjust` solve the problem, and writes the
/// optimized poses and positions back into the map.
pub fn run_local_ba(map: &mut SlamMap, camera: &PinholeCamera)
    ensures
        !worth_optimizing(*old(map)) ==> *final(map) == *old(map),
        worth_optimizing(*old(map)) ==> exists|window: LocalWindow, solution: Option<BaSolution>|
            {
                &&& is_window(window, *old(map), *camera)
                &&& #[trigger] is_adjustment(*camera, window.problem, solution)
                &&& adjusted(*old(map), *final(map), solution)
            },
{
    let optimize = |problem: &BaProblem| -> (solution: Option<BaSolution>)
        ensures
            is_adjustment(*camera, *problem, solution),
        { bundle_adjust(problem, camera) };
    run_local_ba_with(map, camera, optimize);
}

/// Local bundle adjustment leaves alone what is outside its window: keyframes before the
/// window, every association, and every point that the window does not hold; of a point in
/// the window only the position changes.
pub proof fn lemma_adjusting_is_local(before: SlamMap, after: SlamMap, solution: Option<BaSolution>)
    requires
        adjusted(before, after, solution),
        before.pts().len() <= usize::MAX,
    ensures
        after.kfs().len() == before.kfs().len(),
        after.pts().len() == before.pts().len(),
        forall|k: int|
            0 <= k < window_start(before.kfs().len()) ==> #[trigger] after.kfs()[k]
                == before.kfs()[k],
        forall|k: int|
            0 <= k < before.kfs().len() ==> {
                &&& (#[trigger] after.kfs()[k]).map_point_by_desc_idx
                    == before.kfs()[k].map_point_by_desc_idx
                &&& after.kfs()[k].frame == (Frame {
                    pose_world_to_cam: after.kfs()[k].frame.pose_world_to_cam,
                    ..before.kfs()[k].frame
                })
            },
        forall|i: int|
            0 <= i < before.pts().len() && !window_points(before).contains(i as usize)
                ==> #[trigger] after.pts()[i] == before.pts()[i],
        forall|i: int|
            0 <= i < before.pts().len() ==> #[trigger] after.pts()[i] == (MapPoint {
                position: after.pts()[i].position,
                ..before.pts()[i]
            }),
{
    let globals = window_points(before);
    if let Some(solved) = solution {
        let n = before.kfs().len();
        lemma_indices_where(
            before.pts().len(),
            |i: int| in_window(before, window_start(n), n, i),
        );
        lemma_moved(before.pts(), globals, solved.points@, globals.len());
    }
}

/// A keypoint of keyframe `k` sees one of the points in the window.
pub open spec fn sees_window(map: SlamMap, k: int) -> bool {
    let all = sites(map.kfs(), window_points(map), map.kfs().len());
    exists|j: int| 0 <= j < all.len() && (#[trigger] all[j]).0 == k
}

/// Bundle adjustment leaves alone a keyframe that sees none of the points in the window.
pub proof fn lemma_unseeing_keyframes_stay(
    before: SlamMap,
    after: SlamMap,
    camera: PinholeCamera,
    window: LocalWindow,
    solution: Option<BaSolution>,
    k: int,
)
    requires
        is_window(window, before, camera),
        is_adjustment(camera, window.problem, solution),
        adjusted(before, after, solution),
        0 <= k < before.kfs().len(),
        !sees_window(before, k),
    ensures
        after.kfs()[k] == before.kfs()[k],
{
    let globals = window_points(before);
    let all = sites(before.kfs(), globals, before.kfs().len());
    if let Some(solved) = solution {
        if is_freed(window.problem, k) {
            let j = choose|j: int|
                {
                    &&& 0 <= j < window.problem.links@.len()
                    &&& (#[trigger] window.problem.links@[j]).pose_idx == k
                };
            assert(is_link(window.problem.links@[j], all[j], before.kfs(), globals, camera));
            assert(all[j].0 == k);
        }
        assert(solved.poses@[k] == window.problem.poses@[k]);
        assert(window.problem.poses@[k] == before.kfs()[k].frame.pose_world_to_cam);
    }
}

proof fn lemma_moved(pts: Seq<MapPoint>, globals: Seq<usize>, points: Seq<Vec3F64>, n: nat)
    requires
        n <= globals.len(),
        forall|i: int| 0 <= i < globals.len() ==> #[trigger] globals[i] < pts.len(),
        pts.len() <= usize::MAX,
    ensures
        moved(pts, globals, points, n).len() == pts.len(),
        forall|i: int|
            0 <= i < pts.len() && !globals.contains(i as usize) ==> #[trigger] moved(
                pts,
                globals,
                points,
                n,
            )[i] == pts[i],
        forall|i: int|
            0 <= i < pts.len() ==> #[trigger] moved(pts, globals, points, n)[i] == (MapPoint {
                position: moved(pts, globals, points, n)[i].position,
                ..pts[i]
            }),
    decreases n,
{
    if n > 0 {
        let m = (n - 1) as nat;
        lemma_moved(pts, globals, points, m);
        let head = moved(pts, globals, points, m);
        let g = globals[n - 1];
        assert forall|i: int| 0 <= i < pts.len() && !globals.contains(i as usize) implies #[trigger] moved(
            pts,
            globals,
            points,
            n,
        )[i] == pts[i] by {
            assert(head[i] == pts[i]);
            assert(globals.contains(g));
            assert(i != g);
        }
        assert forall|i: int| 0 <= i < pts.len() implies #[trigger] moved(
            pts,
            globals,
            points,
            n,
        )[i] == (MapPoint {
            position: moved(pts, globals, points, n)[i].position,
            ..pts[i]
        }) by {
            assert(head[i] == (MapPoint { position: head[i].position, ..pts[i] }));
        }
    }
}

/// The point that a solution gives for a place in the window is where the map point ends up.
pub proof fn lemma_adjusting_moves(before: SlamMap, after: SlamMap, solution: BaSolution, l: int)
    requires
        adjusted(before, after, Some(solution)),
        0 <= l < window_points(before).len(),
        before.pts().len() <= usize::MAX,
    ensures
        after.pts()[window_points(before)[l] as int].position == solution.points@[l],
{
    let n = before.kfs().len();
    lemma_indices_where(before.pts().len(), |i: int| in_window(before, window_start(n), n, i));
    lemma_moved_to(before.pts(), window_points(before), solution.points@, window_points(before).len(), l);
}

proof fn lemma_moved_to(
    pts: Seq<MapPoint>,
    globals: Seq<usize>,
    points: Seq<Vec3F64>,
    n: nat,
    l: int,
)
    requires
        0 <= l < n <= globals.len(),
        pts.len() <= usize::MAX,
        forall|i: int| 0 <= i < globals.len() ==> #[trigger] globals[i] < pts.len(),
        forall|i: int, j: int| 0 <= i < j < globals.len() ==> globals[i] < globals[j],
    ensures
        moved(pts, globals, points, n)[globals[l] as int].position == points[l],
    decreases n,
{
    lemma_moved(pts, globals, points, (n - 1) as nat);
    if l < n - 1 {
        lemma_moved_to(pts, globals, points, (n - 1) as nat, l);
        assert(globals[l] < globals[n - 1]);
    }
}

/// Keyframe `k` refers to point `i` by a keypoint that exists, `d`.
pub open spec fn sees_by(kfs: Seq<Keyframe>, k: int, d: int, i: usize) -> bool {
    &&& 0 <= k < kfs.len()
    &&& 0 <= d < kfs[k].map_point_by_desc_idx@.len()
    &&& d < keypoint_count(kfs[k].frame.features)
    &&& kfs[k].map_point_by_desc_idx@[d] == Some(i)
}

proof fn lemma_sites(kfs: Seq<Keyframe>, globals: Seq<usize>, n: nat)
    requires
        n <= kfs.len() <= usize::MAX,
        forall|k: int|
            0 <= k < kfs.len() ==> (#[trigger] kfs[k]).map_point_by_desc_idx@.len() <= usize::MAX,
    ensures
        forall|j: int|
            0 <= j < sites(kfs, globals, n).len() ==> {
                let (k, d) = #[trigger] sites(kfs, globals, n)[j];
                &&& k < n
                &&& d < kfs[k as int].map_point_by_desc_idx@.len()
                &&& is_site(kfs[k as int], globals, d as int)
            },
        forall|k: usize, d: usize|
            k < n && d < kfs[k as int].map_point_by_desc_idx@.len() && is_site(
                kfs[k as int],
                globals,
                d as int,
            ) ==> #[trigger] sites(kfs, globals, n).contains((k, d)),
    decreases n,
{
    if n > 0 {
        let m = (n - 1) as nat;
        lemma_sites(kfs, globals, m);
        let kf = kfs[m as int];
        let before = sites(kfs, globals, m);
        let here = kf_sites(kf, globals);
        let tagged = here.map_values(|d: usize| (m as usize, d));
        let all = sites(kfs, globals, n);
        let is_here = |d: int| is_site(kf, globals, d);
        assert(kf.map_point_by_desc_idx@.len() <= usize::MAX);
        lemma_indices_where(kf.map_point_by_desc_idx@.len(), is_here);
        assert(all =~= before + tagged);
        assert forall|j: int| 0 <= j < all.len() implies {
            let (k, d) = #[trigger] all[j];
            &&& k < n
            &&& d < kfs[k as int].map_point_by_desc_idx@.len()
            &&& is_site(kfs[k as int], globals, d as int)
        } by {
            if j < before.len() {
                assert(all[j] == before[j]);
            } else {
                let a = j - before.len();
                assert(all[j] == tagged[a]);
                assert(is_here(here[a] as int));
            }
        }
        assert forall|k: usize, d: usize|
            k < n && d < kfs[k as int].map_point_by_desc_idx@.len() && is_site(
                kfs[k as int],
                globals,
                d as int,
            ) implies #[trigger] all.contains((k, d)) by {
            if k < m {
                assert(before.contains((k, d)));
                let j = choose|j: int| 0 <= j < before.len() && before[j] == (k, d);
                assert(all[j] == (k, d));
            } else {
                assert(is_here(d as int));
                assert(here.contains(d));
                let a = choose|a: int| 0 <= a < here.len() && here[a] == d;
                assert(tagged[a] == (k, d));
                assert(all[before.len() + a] == (k, d));
            }
        }
    }
}

/// The window holds a map point exactly where it is not culled and one of the three latest
/// keyframes refers to it; each once, by ascending index, at its position. It holds the poses
/// of all keyframes, in order.
pub proof fn lemma_window_holds(window: LocalWindow, map: SlamMap, camera: PinholeCamera)
    requires
        is_window(window, map, camera),
        map.pts().len() <= usize::MAX,
    ensures
        forall|i: int|
            0 <= i < map.pts().len() ==> (#[trigger] window.globals@.contains(i as usize) <==> {
                &&& !map.pts()[i].culled
                &&& exists|k: int, d: int|
                    {
                        &&& 0 <= k < map.kfs().len()
                        &&& k >= map.kfs().len() - 3
                        &&& 0 <= d < map.kfs()[k].map_point_by_desc_idx@.len()
                        &&& #[trigger] map.kfs()[k].map_point_by_desc_idx@[d] == Some(i as usize)
                    }
            }),
        forall|a: int, b: int|
            0 <= a < b < window.globals@.len() ==> window.globals@[a] < window.globals@[b],
        window.problem.points@.len() == window.globals@.len(),
        forall|l: int|
            0 <= l < window.globals@.len() ==> (#[trigger] window.globals@[l]) < map.pts().len()
                && window.problem.points@[l] == map.pts()[window.globals@[l] as int].position,
        window.problem.poses@.len() == map.kfs().len(),
        forall|k: int|
            0 <= k < map.kfs().len() ==> #[trigger] window.problem.poses@[k]
                == map.kfs()[k].frame.pose_world_to_cam,
{
    let n = map.kfs().len();
    let inside = |i: int| in_window(map, window_start(n), n, i);
    lemma_indices_where(map.pts().len(), inside);
    let globals = window.globals@;
    assert forall|i: int| 0 <= i < map.pts().len() implies (#[trigger] globals.contains(
        i as usize,
    ) <==> {
        &&& !map.pts()[i].culled
        &&& exists|k: int, d: int|
            {
                &&& 0 <= k < map.kfs().len()
                &&& k >= map.kfs().len() - 3
                &&& 0 <= d < map.kfs()[k].map_point_by_desc_idx@.len()
                &&& #[trigger] map.kfs()[k].map_point_by_desc_idx@[d] == Some(i as usize)
            }
    }) by {
        if globals.contains(i as usize) {
            let a = choose|a: int| 0 <= a < globals.len() && globals[a] == i as usize;
            assert(inside(globals[a] as int));
            let k = choose|k: int|
                window_start(n) <= k < n && refers(
                    (#[trigger] map.kfs()[k]).map_point_by_desc_idx@,
                    i,
                );
            let slots = map.kfs()[k].map_point_by_desc_idx@;
            let d = choose|d: int| 0 <= d < slots.len() && #[trigger] slots[d] == Some(i as usize);
            assert(map.kfs()[k].map_point_by_desc_idx@[d] == Some(i as usize));
        }
        if !map.pts()[i].culled && exists|k: int, d: int|
            {
                &&& 0 <= k < map.kfs().len()
                &&& k >= map.kfs().len() - 3
                &&& 0 <= d < map.kfs()[k].map_point_by_desc_idx@.len()
                &&& #[trigger] map.kfs()[k].map_point_by_desc_idx@[d] == Some(i as usize)
            } {
            let (k, d) = choose|k: int, d: int|
                {
                    &&& 0 <= k < map.kfs().len()
                    &&& k >= map.kfs().len() - 3
                    &&& 0 <= d < map.kfs()[k].map_point_by_desc_idx@.len()
                    &&& #[trigger] map.kfs()[k].map_point_by_desc_idx@[d] == Some(i as usize)
                };
            assert(refers(map.kfs()[k].map_point_by_desc_idx@, i));
            assert(window_start(n) <= k < n);
            assert(inside(i as usize as int));
        }
    }
}

/// Every link of the window is an observation of the map: a keypoint of a keyframe that refers
/// to the map point, at its undistorted pixel, and the pose is held exactly where the keyframe
/// is not one of the three latest.
pub proof fn lemma_window_links(
    window: LocalWindow,
    map: SlamMap,
    camera: PinholeCamera,
    j: int,
)
    requires
        is_window(window, map, camera),
        map.kfs().len() <= usize::MAX,
        forall|k: int|
            0 <= k < map.kfs().len() ==> (#[trigger] map.kfs()[k]).map_point_by_desc_idx@.len()
                <= usize::MAX,
        0 <= j < window.problem.links@.len(),
    ensures
        ({
            let link = window.problem.links@[j];
            let k = link.pose_idx as int;
            &&& link.point_idx < window.globals@.len()
            &&& link.fixed_pose <==> k < map.kfs().len() - 3
            &&& exists|d: int|
                {
                    &&& #[trigger] sees_by(
                        map.kfs(),
                        k,
                        d,
                        window.globals@[link.point_idx as int],
                    )
                    &&& link.pixel == undistorted_keypoint(
                        camera,
                        map.kfs()[k].frame.features,
                        d,
                    )
                }
        }),
{
    let globals = window_points(map);
    let all = sites(map.kfs(), globals, map.kfs().len());
    lemma_sites(map.kfs(), globals, map.kfs().len());
    let link = window.problem.links@[j];
    assert(is_link(link, all[j], map.kfs(), globals, camera));
    let (k, d) = all[j];
    assert(sees_by(map.kfs(), k as int, d as int, globals[link.point_idx as int]));
}

/// Every keypoint that sees a point of the window, in any keyframe, is a link of the window.
pub proof fn lemma_window_links_are_owed(
    window: LocalWindow,
    map: SlamMap,
    camera: PinholeCamera,
    k: int,
    d: int,
    l: int,
)
    requires
        is_window(window, map, camera),
        map.kfs().len() <= usize::MAX,
        map.pts().len() <= usize::MAX,
        forall|k: int|
            0 <= k < map.kfs().len() ==> (#[trigger] map.kfs()[k]).map_point_by_desc_idx@.len()
                <= usize::MAX,
        0 <= l < window.globals@.len(),
        sees_by(map.kfs(), k, d, window.globals@[l]),
    ensures
        exists|j: int|
            {
                &&& 0 <= j < window.problem.links@.len()
                &&& (#[trigger] window.problem.links@[j]).pose_idx == k
                &&& window.problem.links@[j].point_idx == l
                &&& window.problem.links@[j].pixel == undistorted_keypoint(
                    camera,
                    map.kfs()[k].frame.features,
                    d,
                )
            },
{
    let globals = window_points(map);
    let n = map.kfs().len();
    let all = sites(map.kfs(), globals, n);
    lemma_sites(map.kfs(), globals, n);
    lemma_indices_where(map.pts().len(), |i: int| in_window(map, window_start(n), n, i));
    assert(globals.contains(globals[l]));
    assert(is_site(map.kfs()[k], globals, d));
    assert(all.contains((k as usize, d as usize)));
    let j = choose|j: int| 0 <= j < all.len() && all[j] == (k as usize, d as usize);
    let link = window.problem.links@[j];
    assert(is_link(link, all[j], map.kfs(), globals, camera));
    let p = link.point_idx as int;
    assert(globals[p] == globals[l]);
    if p < l {
        assert(globals[p] < globals[l]);
    }
    if l < p {
        assert(globals[l] < globals[p]);
    }
}

/// The poses that a solution gives for the three latest keyframes are where these end up; the
/// poses of all others stay, and without a solution nothing changes.
pub proof fn lemma_adjusting_poses(
    before: SlamMap,
    after: SlamMap,
    solution: Option<BaSolution>,
    k: int,
)
    requires
        adjusted(before, after, solution),
        0 <= k < before.kfs().len(),
    ensures
        solution is None ==> after == before,
        solution is Some && k >= before.kfs().len() - 3 && k < solution->0.poses@.len()
            ==> after.kfs()[k].frame.pose_world_to_cam == solution->0.poses@[k],
        k < before.kfs().len() - 3 ==> after.kfs()[k] == before.kfs()[k],
{
}

/// A map is worth optimizing from two keyframes on, where its window holds a point and at least
/// eight observations.
pub proof fn lemma_worth_optimizing(window: LocalWindow, map: SlamMap, camera: PinholeCamera)
    requires
        is_window(window, map, camera),
    ensures
        worth_optimizing(map) <==> {
            &&& map.kfs().len() >= 2
            &&& window.globals@.len() > 0
            &&& window.problem.links@.len() >= 8
        },
        window.active_start == (if map.kfs().len() >= 3 {
            map.kfs().len() - 3
        } else {
            0
        }),
{
}

} // verus!
