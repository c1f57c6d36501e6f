//! Culling of map points that are rarely found again or lie behind a camera.

use crate::double::{at_least, is_at_least, number};
use crate::geometry::{depth_bits, depth_of, transform, transformed};
use crate::mapping::map::{Keyframe, MapPoint, SlamMap};
use kornia_3d::pose::Pose3d;
use kornia_algebra::Vec3F64;
use vstd::prelude::*;

verus! {

/// Frames in which a point must have been visible before its ratio counts.
pub const MIN_OBSERVATIONS: u32 = 5;

/// A point is kept if it was found in one of this many frames that should show it.
pub const MAX_VISIBLE_PER_FOUND: u32 = 5;

/// The point was matched in less than a fifth of the frames that should show it.
pub open spec fn poorly_found(mp: MapPoint) -> bool {
    mp.n_visible >= MIN_OBSERVATIONS && MAX_VISIBLE_PER_FOUND * mp.n_found < mp.n_visible
}

/// The bits of a hundred-millionth: a point no deeper is behind the camera.
pub const MIN_CAMERA_DEPTH: u64 = 0x3e45_798e_e230_8c3a;

/// The camera at a pose has the point behind it.
pub open spec fn behind_camera(pose: Pose3d, point: Vec3F64) -> bool {
    at_least(number(MIN_CAMERA_DEPTH), depth_of(transformed(pose, point)))
}

fn is_behind_camera(pose: &Pose3d, point: &Vec3F64) -> (behind: bool)
    ensures
        behind == behind_camera(*pose, *point),
{
    let p_cam = transform(pose, point);
    is_at_least(MIN_CAMERA_DEPTH, depth_bits(&p_cam))
}

/// Slot `d` of keyframe `k` refers to point `i`, which lies behind that keyframe's camera.
pub open spec fn link_behind(kfs: Seq<Keyframe>, pts: Seq<MapPoint>, i: int, k: int, d: int) -> bool {
    &&& 0 <= k < kfs.len()
    &&& 0 <= d < kfs[k].map_point_by_desc_idx@.len()
    &&& kfs[k].map_point_by_desc_idx@[d] == Some(i as usize)
    &&& behind_camera(kfs[k].frame.pose_world_to_cam, pts[i].position)
}

/// Some keyframe that refers to point `i` has it behind its camera.
pub open spec fn seen_behind(kfs: Seq<Keyframe>, pts: Seq<MapPoint>, i: int) -> bool {
    exists|k: int, d: int| link_behind(kfs, pts, i, k, d)
}

/// Point `i` is to be culled now.
pub open spec fn to_cull(kfs: Seq<Keyframe>, pts: Seq<MapPoint>, i: int) -> bool {
    &&& 0 <= i < pts.len()
    &&& !pts[i].culled
    &&& poorly_found(pts[i]) || seen_behind(kfs, pts, i)
}

/// The points after culling: only the marks change.
pub open spec fn culled_points(kfs: Seq<Keyframe>, pts: Seq<MapPoint>) -> Seq<MapPoint> {
    Seq::new(
        pts.len(),
        |i: int|
            if to_cull(kfs, pts, i) {
                (MapPoint { culled: true, ..pts[i] })
            } else {
                pts[i]
            },
    )
}

/// The slot refers to a culled point.
pub open spec fn dangling(pts: Seq<MapPoint>, slot: Option<usize>) -> bool {
    slot is Some && slot->0 < pts.len() && pts[slot->0 as int].culled
}

/// The slots with every reference to a culled point taken out.
pub open spec fn unlinked(pts: Seq<MapPoint>, slots: Seq<Option<usize>>) -> Seq<Option<usize>> {
    Seq::new(
        slots.len(),
        |d: int|
            if dangling(pts, slots[d]) {
                None
            } else {
                slots[d]
            },
    )
}

/// `after` is the map `before` with its bad points culled; if there was one, no keyframe
/// refers to a culled point any more.
pub open spec fn culls_to(before: SlamMap, after: SlamMap) -> bool {
    let some_culled = exists|i: int| to_cull(before.kfs(), before.pts(), i);
    &&& after.pts() == culled_points(before.kfs(), before.pts())
    &&& after.kfs().len() == before.kfs().len()
    &&& forall|k: int|
        0 <= k < before.kfs().len() ==> {
            &&& (#[trigger] after.kfs()[k]).frame == before.kfs()[k].frame
            &&& after.kfs()[k].map_point_by_desc_idx@ == (if some_culled {
                unlinked(after.pts(), before.kfs()[k].map_point_by_desc_idx@)
            } else {
                before.kfs()[k].map_point_by_desc_idx@
            })
        }
}

/// No keyframe refers to a culled point.
pub open spec fn no_dangling(map: SlamMap) -> bool {
    forall|k: int, d: int|
        0 <= k < map.kfs().len() && 0 <= d < map.kfs()[k].map_point_by_desc_idx@.len()
            ==> !dangling(map.pts(), #[trigger] map.kfs()[k].map_point_by_desc_idx@[d])
}

fn found_too_rarely(mp: &MapPoint) -> (poor: bool)
    ensures
        poor == poorly_found(*mp),
{
    let found: u64 = mp.n_found as u64;
    let factor: u64 = MAX_VISIBLE_PER_FOUND as u64;
    assert(factor * found <= 5 * u32::MAX) by (nonlinear_arith)
        requires
            factor == 5,
            found <= u32::MAX,
    ;
    mp.n_visible >= MIN_OBSERVATIONS && factor * found < mp.n_visible as u64
}

/// Marks the points that keyframe `k` refers to and has behind its camera.
fn mark_behind(kfs: &[Keyframe], pts: &[MapPoint], k: usize, marks: &mut Vec<bool>)
    requires
        k < kfs@.len(),
        old(marks)@.len() == pts@.len(),
    ensures
        final(marks)@.len() == pts@.len(),
        forall|i: int|
            0 <= i < pts@.len() ==> (#[trigger] final(marks)@[i] <==> old(marks)@[i] || (
            !pts@[i].culled && exists|d: int| link_behind(kfs@, pts@, i, k as int, d))),
{
    let kf = &kfs[k];
    let n: usize = kf.map_point_by_desc_idx.len();
    let mut d: usize = 0;
    while d < n
        invariant
            d <= n,
            k < kfs@.len(),
            *kf == kfs@[k as int],
            n == kf.map_point_by_desc_idx@.len(),
            marks@.len() == pts@.len(),
            forall|i: int|
                0 <= i < pts@.len() ==> (#[trigger] marks@[i] <==> old(marks)@[i] || (
                !pts@[i].culled && exists|e: int|
                    e < d && link_behind(kfs@, pts@, i, k as int, e))),
        decreases n - d,
    {
        let ghost before = marks@;
        if let Some(i) = kf.map_point_by_desc_idx[d] {
            if i < pts.len() && !pts[i].culled && is_behind_camera(
                &kf.frame.pose_world_to_cam,
                &pts[i].position,
            ) {
                marks.set(i, true);
                assert(link_behind(kfs@, pts@, i as int, k as int, d as int));
            }
        }
        assert forall|i: int| 0 <= i < pts@.len() implies (#[trigger] marks@[i] <==> old(
            marks,
        )@[i] || (!pts@[i].culled && exists|e: int|
            e < d + 1 && link_behind(kfs@, pts@, i, k as int, e))) by {
            assert(before[i] <==> old(marks)@[i] || (!pts@[i].culled && exists|e: int|
                e < d && link_behind(kfs@, pts@, i, k as int, e)));
            if exists|e: int| e < d + 1 && link_behind(kfs@, pts@, i, k as int, e) {
                let e = choose|e: int| e < d + 1 && link_behind(kfs@, pts@, i, k as int, e);
                assert(e < d || e == d);
            }
        }
        d += 1;
    }
    assert forall|i: int| 0 <= i < pts@.len() implies (#[trigger] marks@[i] <==> old(marks)@[i]
        || (!pts@[i].culled && exists|d: int| link_behind(kfs@, pts@, i, k as int, d))) by {
        if exists|d: int| link_behind(kfs@, pts@, i, k as int, d) {
            let e = choose|d: int| link_behind(kfs@, pts@, i, k as int, d);
            assert(e < n && link_behind(kfs@, pts@, i, k as int, e));
        }
    }
}

/// Which points are to be culled now.
fn points_to_cull(kfs: &[Keyframe], pts: &[MapPoint]) -> (marks: Vec<bool>)
    ensures
        marks@.len() == pts@.len(),
        forall|i: int| 0 <= i < pts@.len() ==> #[trigger] marks@[i] == to_cull(kfs@, pts@, i),
{
    let mut marks: Vec<bool> = Vec::new();
    let mut p: usize = 0;
    while p < pts.len()
        invariant
            p <= pts@.len(),
            marks@.len() == p,
            forall|i: int|
                0 <= i < p ==> #[trigger] marks@[i] == (!pts@[i].culled && poorly_found(pts@[i])),
        decreases pts@.len() - p,
    {
        let mark = !pts[p].culled && found_too_rarely(&pts[p]);
        marks.push(mark);
        p += 1;
    }
    let mut k: usize = 0;
    while k < kfs.len()
        invariant
            k <= kfs@.len(),
            marks@.len() == pts@.len(),
            forall|i: int|
                0 <= i < pts@.len() ==> (#[trigger] marks@[i] <==> (!pts@[i].culled && (
                poorly_found(pts@[i]) || exists|h: int, d: int|
                    h < k && link_behind(kfs@, pts@, i, h, d)))),
        decreases kfs@.len() - k,
    {
        let ghost before = marks@;
        mark_behind(kfs, pts, k, &mut marks);
        assert forall|i: int| 0 <= i < pts@.len() implies (#[trigger] marks@[i] <==> (
        !pts@[i].culled && (poorly_found(pts@[i]) || exists|h: int, d: int|
            h < k + 1 && link_behind(kfs@, pts@, i, h, d)))) by {
            assert(before[i] <==> (!pts@[i].culled && (poorly_found(pts@[i]) || exists|h: int, d: int|
                h < k && link_behind(kfs@, pts@, i, h, d))));
            if exists|h: int, d: int| h < k + 1 && link_behind(kfs@, pts@, i, h, d) {
                let (h, d) = choose|h: int, d: int|
                    h < k + 1 && link_behind(kfs@, pts@, i, h, d);
                assert(h < k || h == k);
            }
            if exists|d: int| link_behind(kfs@, pts@, i, k as int, d) {
                let d = choose|d: int| link_behind(kfs@, pts@, i, k as int, d);
                assert(k < k + 1 && link_behind(kfs@, pts@, i, k as int, d));
            }
        }
        k += 1;
    }
    assert forall|i: int| 0 <= i < pts@.len() implies #[trigger] marks@[i] == to_cull(
        kfs@,
        pts@,
        i,
    ) by {
        if seen_behind(kfs@, pts@, i) {
            let (h, d) = choose|h: int, d: int| link_behind(kfs@, pts@, i, h, d);
            assert(h < k && link_behind(kfs@, pts@, i, h, d));
        }
    }
    marks
}

/// Culls the marked points; tells whether there was one.
fn apply_marks(pts: &mut Vec<MapPoint>, marks: &Vec<bool>) -> (any: bool)
    requires
        old(pts)@.len() == marks@.len(),
    ensures
        final(pts)@ == Seq::new(
            old(pts)@.len(),
            |i: int|
                if marks@[i] {
                    (MapPoint { culled: true, ..old(pts)@[i] })
                } else {
                    old(pts)@[i]
                },
        ),
        any <==> exists|i: int| 0 <= i < marks@.len() && marks@[i],
{
    let ghost before = pts@;
    let mut any = false;
    let mut p: usize = 0;
    while p < pts.len()
        invariant
            p <= pts@.len(),
            pts@.len() == before.len() == marks@.len(),
            any <==> exists|i: int| 0 <= i < p && marks@[i],
            forall|i: int|
                0 <= i < pts@.len() ==> #[trigger] pts@[i] == (if i < p && marks@[i] {
                    (MapPoint { culled: true, ..before[i] })
                } else {
                    before[i]
                }),
        decreases pts@.len() - p,
    {
        if marks[p] {
            let mut mp = pts[p];
            mp.culled = true;
            pts.set(p, mp);
            any = true;
        }
        p += 1;
    }
    assert(pts@ =~= Seq::new(
        before.len(),
        |i: int|
            if marks@[i] {
                (MapPoint { culled: true, ..before[i] })
            } else {
                before[i]
            },
    ));
    any
}

/// Which points are culled.
fn culled_flags(pts: &[MapPoint]) -> (flags: Vec<bool>)
    ensures
        flags@ == pts@.map_values(|mp: MapPoint| mp.culled),
{
    let mut flags: Vec<bool> = Vec::new();
    let mut p: usize = 0;
    while p < pts.len()
        invariant
            p <= pts@.len(),
            flags@ == pts@.take(p as int).map_values(|mp: MapPoint| mp.culled),
        decreases pts@.len() - p,
    {
        flags.push(pts[p].culled);
        p += 1;
        assert(flags@ =~= pts@.take(p as int).map_values(|mp: MapPoint| mp.culled));
    }
    assert(pts@.take(p as int) =~= pts@);
    flags
}

/// Takes every reference to a flagged point out of the slots.
fn unlink_slots(slots: &mut Vec<Option<usize>>, flags: &Vec<bool>, Ghost(pts): Ghost<Seq<MapPoint>>)
    requires
        flags@ == pts.map_values(|mp: MapPoint| mp.culled),
    ensures
        final(slots)@ == unlinked(pts, old(slots)@),
{
    let ghost before = slots@;
    let mut d: usize = 0;
    while d < slots.len()
        invariant
            d <= slots@.len(),
            slots@.len() == before.len(),
            flags@ == pts.map_values(|mp: MapPoint| mp.culled),
            forall|e: int|
                0 <= e < slots@.len() ==> #[trigger] slots@[e] == (if e < d {
                    unlinked(pts, before)[e]
                } else {
                    before[e]
                }),
        decreases slots@.len() - d,
    {
        if let Some(i) = slots[d] {
            if i < flags.len() && flags[i] {
                slots.set(d, None);
            }
        }
        d += 1;
    }
    assert(slots@ =~= unlinked(pts, before));
}

/// Takes every reference to a flagged point out of the keyframes.
fn unlink_keyframes(kfs: &mut Vec<Keyframe>, flags: &Vec<bool>, Ghost(pts): Ghost<Seq<MapPoint>>)
    requires
        flags@ == pts.map_values(|mp: MapPoint| mp.culled),
    ensures
        final(kfs)@.len() == old(kfs)@.len(),
        forall|k: int|
            0 <= k < old(kfs)@.len() ==> {
                &&& (#[trigger] final(kfs)@[k]).frame == old(kfs)@[k].frame
                &&& final(kfs)@[k].map_point_by_desc_idx@ == unlinked(
                    pts,
                    old(kfs)@[k].map_point_by_desc_idx@,
                )
            },
{
    let ghost before = kfs@;
    let mut k: usize = 0;
    while k < kfs.len()
        invariant
            k <= kfs@.len(),
            kfs@.len() == before.len(),
            flags@ == pts.map_values(|mp: MapPoint| mp.culled),
            forall|h: int|
                0 <= h < kfs@.len() ==> if h < k {
                    &&& (#[trigger] kfs@[h]).frame == before[h].frame
                    &&& kfs@[h].map_point_by_desc_idx@ == unlinked(
                        pts,
                        before[h].map_point_by_desc_idx@,
                    )
                } else {
                    kfs@[h] == before[h]
                },
        decreases kfs@.len() - k,
    {
        unlink_slots(&mut kfs[k].map_point_by_desc_idx, flags, Ghost(pts));
        k += 1;
    }
}

/// Cull map points with poor observation ratios or that project behind cameras.
pub fn cull_map_points(map: &mut SlamMap)
    ensures
        culls_to(*old(map), *final(map)),
{
    let ghost before = *map;
    let marks = points_to_cull(map.keyframes(), map.map_points());
    let any = apply_marks(map.map_points_mut(), &marks);
    assert(map.pts() =~= culled_points(before.kfs(), before.pts()));
    if any {
        let ghost pts = map.pts();
        let ghost i = choose|i: int| 0 <= i < marks@.len() && marks@[i];
        assert(to_cull(before.kfs(), before.pts(), i));
        let flags = culled_flags(map.map_points());
        unlink_keyframes(map.keyframes_mut(), &flags, Ghost(pts));
    } else {
        assert forall|i: int| !to_cull(before.kfs(), before.pts(), i) by {
            if to_cull(before.kfs(), before.pts(), i) {
                assert(marks@[i]);
            }
        }
    }
}

/// Culling leaves no reference to a culled point, unless one was there already and
/// nothing new was culled.
pub proof fn lemma_culling_leaves_no_dangling(before: SlamMap, after: SlamMap)
    requires
        culls_to(before, after),
        no_dangling(before) || exists|i: int| to_cull(before.kfs(), before.pts(), i),
    ensures
        no_dangling(after),
{
    assert forall|k: int, d: int|
        0 <= k < after.kfs().len() && 0 <= d
            < after.kfs()[k].map_point_by_desc_idx@.len() implies !dangling(
        after.pts(),
        #[trigger] after.kfs()[k].map_point_by_desc_idx@[d],
    ) by {
        let slots = before.kfs()[k].map_point_by_desc_idx@;
        assert(after.kfs()[k].frame == before.kfs()[k].frame);
        if !(exists|i: int| to_cull(before.kfs(), before.pts(), i)) {
            assert(!dangling(before.pts(), before.kfs()[k].map_point_by_desc_idx@[d]));
            if dangling(after.pts(), slots[d]) {
                let i = slots[d]->0 as int;
                assert(!to_cull(before.kfs(), before.pts(), i));
            }
        }
    }
}

/// Culling again right after culling changes nothing.
pub proof fn lemma_culling_is_idempotent(before: SlamMap, once: SlamMap, twice: SlamMap)
    requires
        culls_to(before, once),
        culls_to(once, twice),
    ensures
        twice.pts() == once.pts(),
        twice.kfs().len() == once.kfs().len(),
        forall|k: int|
            0 <= k < once.kfs().len() ==> {
                &&& (#[trigger] twice.kfs()[k]).frame == once.kfs()[k].frame
                &&& twice.kfs()[k].map_point_by_desc_idx@ == once.kfs()[k].map_point_by_desc_idx@
            },
{
    assert forall|i: int| !to_cull(once.kfs(), once.pts(), i) by {
        if to_cull(once.kfs(), once.pts(), i) {
            assert(!to_cull(before.kfs(), before.pts(), i));
            assert(once.pts()[i] == before.pts()[i]);
            let (k, d) = choose|k: int, d: int| link_behind(once.kfs(), once.pts(), i, k, d);
            assert(once.kfs()[k].frame == before.kfs()[k].frame);
            assert(link_behind(before.kfs(), before.pts(), i, k, d));
        }
    }
    assert(twice.pts() =~= once.pts());
}

/// A culled point stays culled, no other field of a point changes, and no slot comes to
/// refer to a point that it did not refer to before.
pub proof fn lemma_culling_only_removes(before: SlamMap, after: SlamMap)
    requires
        culls_to(before, after),
    ensures
        after.pts().len() == before.pts().len(),
        forall|i: int|
            0 <= i < before.pts().len() ==> {
                &&& before.pts()[i].culled ==> (#[trigger] after.pts()[i]).culled
                &&& after.pts()[i] == (MapPoint {
                    culled: after.pts()[i].culled,
                    ..before.pts()[i]
                })
            },
        forall|k: int, d: int|
            0 <= k < before.kfs().len() && 0 <= d
                < before.kfs()[k].map_point_by_desc_idx@.len() ==> {
                ||| #[trigger] after.kfs()[k].map_point_by_desc_idx@[d] is None
                ||| after.kfs()[k].map_point_by_desc_idx@[d]
                    == before.kfs()[k].map_point_by_desc_idx@[d]
            },
{
    assert forall|k: int, d: int|
        0 <= k < before.kfs().len() && 0 <= d
            < before.kfs()[k].map_point_by_desc_idx@.len() implies {
        ||| #[trigger] after.kfs()[k].map_point_by_desc_idx@[d] is None
        ||| after.kfs()[k].map_point_by_desc_idx@[d] == before.kfs()[k].map_point_by_desc_idx@[d]
    } by {
        assert(after.kfs()[k].frame == before.kfs()[k].frame);
    }
}

/// A keyframe refers to point `i`, and at its pose the camera does not have the point more than
/// a hundred-millionth in front of it.
pub open spec fn is_behind_keyframe(
    kfs: Seq<Keyframe>,
    position: Vec3F64,
    i: int,
    k: int,
    d: int,
) -> bool {
    let depth = depth_of(transformed(kfs[k].frame.pose_world_to_cam, position));
    &&& 0 <= k < kfs.len()
    &&& 0 <= d < kfs[k].map_point_by_desc_idx@.len()
    &&& kfs[k].map_point_by_desc_idx@[d] == Some(i as usize)
    &&& depth is Some
    &&& depth->0 <= 0x3e45_798e_e230_8c3a
}

/// After culling a point is culled exactly where it was before, or was due in at least five
/// frames and found in less than a fifth of them, or some keyframe refers to it and has it, by
/// its own pose, not in front of its camera.
pub proof fn lemma_culled_exactly(before: SlamMap, after: SlamMap, i: int)
    requires
        culls_to(before, after),
        0 <= i < before.pts().len(),
    ensures
        ({
            let mp = before.pts()[i];
            after.pts()[i].culled <==> {
                ||| mp.culled
                ||| mp.n_visible >= 5 && 5 * mp.n_found < mp.n_visible
                ||| exists|k: int, d: int| #[trigger]
                    is_behind_keyframe(before.kfs(), mp.position, i, k, d)
            }
        }),
{
    let mp = before.pts()[i];
    if seen_behind(before.kfs(), before.pts(), i) {
        let (k, d) = choose|k: int, d: int| link_behind(before.kfs(), before.pts(), i, k, d);
        assert(is_behind_keyframe(before.kfs(), mp.position, i, k, d));
    }
    if exists|k: int, d: int| #[trigger]
        is_behind_keyframe(before.kfs(), mp.position, i, k, d) {
        let (k, d) = choose|k: int, d: int| #[trigger]
            is_behind_keyframe(before.kfs(), mp.position, i, k, d);
        assert(link_behind(before.kfs(), before.pts(), i, k, d));
    }
}

/// Culling takes out no reference to a point that is not culled.
pub proof fn lemma_live_references_stay(before: SlamMap, after: SlamMap, k: int, d: int)
    requires
        culls_to(before, after),
        0 <= k < before.kfs().len(),
        0 <= d < before.kfs()[k].map_point_by_desc_idx@.len(),
        ({
            let slot = before.kfs()[k].map_point_by_desc_idx@[d];
            slot is Some && slot->0 < after.pts().len() ==> !after.pts()[slot->0 as int].culled
        }),
    ensures
        after.kfs()[k].frame == before.kfs()[k].frame,
        after.kfs()[k].map_point_by_desc_idx@.len() == before.kfs()[k].map_point_by_desc_idx@.len(),
        after.kfs()[k].map_point_by_desc_idx@[d] == before.kfs()[k].map_point_by_desc_idx@[d],
{
    assert(after.kfs()[k].frame == before.kfs()[k].frame);
}

} // verus!
