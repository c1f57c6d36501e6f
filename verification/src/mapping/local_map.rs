//! The part of the map that is worth projecting into the current frame.

use crate::mapping::map::{Keyframe, MapPoint, SlamMap};
use crate::selection::{indices_where, lemma_indices_where_agree};
use vstd::prelude::*;

verus! {

/// How many of the keyframes with most votes are local.
pub const MAX_VOTED_KEYFRAMES: usize = 10;

/// How many of the latest keyframes are local.
pub const MAX_RECENT_KEYFRAMES: usize = 10;

/// A selection of fewer points than this is replaced by the whole map.
pub const MIN_LOCAL_POINTS: usize = 4;

/// The match is with a point that keyframe `kf` was the first to observe.
pub open spec fn casts_vote(pts: Seq<MapPoint>, matched: (usize, usize), kf: usize) -> bool {
    matched.0 < pts.len() && pts[matched.0 as int].keyframe_idx == kf
}

/// How many of the matches are with points that keyframe `kf` was the first to observe.
pub open spec fn votes(pts: Seq<MapPoint>, matched: Seq<(usize, usize)>, kf: usize) -> nat
    decreases matched.len(),
{
    if matched.len() == 0 {
        0
    } else {
        votes(pts, matched.drop_last(), kf) + (if casts_vote(pts, matched.last(), kf) {
            1nat
        } else {
            0nat
        })
    }
}

/// Of two keyframes with their votes, the first ranks before the second.
pub open spec fn outranks(a: (usize, usize), b: (usize, usize)) -> bool {
    a.1 > b.1 || (a.1 == b.1 && a.0 > b.0)
}

/// `order` lists each keyframe that got a vote once, with its votes: most votes first,
/// and the greater index first among equals.
pub open spec fn is_ranking(
    order: Seq<(usize, usize)>,
    pts: Seq<MapPoint>,
    matched: Seq<(usize, usize)>,
) -> bool {
    &&& forall|j: int|
        0 <= j < order.len() ==> (#[trigger] order[j]).1 == votes(pts, matched, order[j].0)
            && order[j].1 > 0
    &&& forall|i: int, j: int|
        0 <= i < j < order.len() ==> outranks(#[trigger] order[i], #[trigger] order[j])
    &&& forall|kf: usize| #[trigger]
        votes(pts, matched, kf) > 0 ==> lists(order, kf)
}

/// `order` has an entry for keyframe `kf`.
pub open spec fn lists(order: Seq<(usize, usize)>, kf: usize) -> bool {
    exists|j: int| 0 <= j < order.len() && (#[trigger] order[j]).0 == kf
}

/// The keyframe with frame index `id` is local: it is the current one, or one of the best
/// ranked, or one of the latest.
pub open spec fn is_local(
    kfs: Seq<Keyframe>,
    order: Seq<(usize, usize)>,
    current: Option<usize>,
    id: usize,
) -> bool {
    ||| current == Some(id)
    ||| exists|j: int|
        0 <= j < order.len() && j < MAX_VOTED_KEYFRAMES && (#[trigger] order[j]).0 == id
    ||| exists|j: int|
        0 <= j < kfs.len() && kfs.len() - MAX_RECENT_KEYFRAMES <= j && (
        #[trigger] kfs[j]).frame.idx == id
}

/// One of the matches is with point `i`.
pub open spec fn is_tracked(matched: Seq<(usize, usize)>, i: int) -> bool {
    exists|t: int| 0 <= t < matched.len() && (#[trigger] matched[t]).0 == i
}

/// One of the slots refers to point `i`.
pub open spec fn refers(slots: Seq<Option<usize>>, i: int) -> bool {
    exists|d: int| 0 <= d < slots.len() && #[trigger] slots[d] == Some(i as usize)
}

/// Point `i` is matched, or a local keyframe refers to it.
pub open spec fn is_selected(
    kfs: Seq<Keyframe>,
    order: Seq<(usize, usize)>,
    current: Option<usize>,
    matched: Seq<(usize, usize)>,
    i: int,
) -> bool {
    ||| is_tracked(matched, i)
    ||| exists|k: int|
        0 <= k < kfs.len() && is_local(kfs, order, current, (#[trigger] kfs[k]).frame.idx)
            && refers(kfs[k].map_point_by_desc_idx@, i)
}

/// The indices that the local map consists of.
pub open spec fn local_indices(
    map: SlamMap,
    order: Seq<(usize, usize)>,
    current: Option<usize>,
    matched: Seq<(usize, usize)>,
) -> Seq<usize> {
    let n = map.pts().len();
    let chosen = indices_where(n, |i: int| is_selected(map.kfs(), order, current, matched, i));
    if chosen.len() < MIN_LOCAL_POINTS && n >= MIN_LOCAL_POINTS {
        indices_where(n, |i: int| true)
    } else {
        chosen
    }
}

/// The points with these indices, without those that are culled.
pub open spec fn live_points(pts: Seq<MapPoint>, indices: Seq<usize>) -> Seq<MapPoint>
    decreases indices.len(),
{
    if indices.len() == 0 {
        Seq::empty()
    } else {
        let head = live_points(pts, indices.drop_last());
        let mp = pts[indices.last() as int];
        if indices.last() < pts.len() && !mp.culled {
            head.push(mp)
        } else {
            head
        }
    }
}

/// `points` and `indices` make up the local map.
pub open spec fn is_local_map(
    map: SlamMap,
    matched: Seq<(usize, usize)>,
    current: Option<usize>,
    points: Seq<MapPoint>,
    indices: Seq<usize>,
) -> bool {
    &&& exists|order: Seq<(usize, usize)>| #[trigger]
        is_ranking(order, map.pts(), matched) && indices == local_indices(
            map,
            order,
            current,
            matched,
        )
    &&& points == live_points(map.pts(), indices)
}

/// Frame index of the current keyframe, where there is one.
pub open spec fn frame_idx(current: Option<&Keyframe>) -> Option<usize> {
    match current {
        Some(kf) => Some(kf.frame.idx),
        None => None,
    }
}

/// Two rankings of the same votes are equal: the order is fixed by the votes.
pub proof fn lemma_ranking_unique(
    a: Seq<(usize, usize)>,
    b: Seq<(usize, usize)>,
    pts: Seq<MapPoint>,
    matched: Seq<(usize, usize)>,
)
    requires
        is_ranking(a, pts, matched),
        is_ranking(b, pts, matched),
    ensures
        a == b,
{
    lemma_ranking_prefix(a, b, pts, matched, a.len());
    lemma_ranking_prefix(b, a, pts, matched, b.len());
    assert(a =~= b);
}

proof fn lemma_ranking_prefix(
    a: Seq<(usize, usize)>,
    b: Seq<(usize, usize)>,
    pts: Seq<MapPoint>,
    matched: Seq<(usize, usize)>,
    n: nat,
)
    requires
        is_ranking(a, pts, matched),
        is_ranking(b, pts, matched),
        n <= a.len(),
    ensures
        n <= b.len(),
        forall|i: int| 0 <= i < n ==> a[i] == b[i],
    decreases n,
{
    if n > 0 {
        let m = n - 1;
        lemma_ranking_prefix(a, b, pts, matched, m as nat);
        assert(lists(b, a[m].0));
        let j = choose|j: int| 0 <= j < b.len() && (#[trigger] b[j]).0 == a[m].0;
        assert(b[j] == a[m]);
        if j < m {
            assert(outranks(a[j], a[m]));
        }
        assert(lists(a, b[m].0));
        let h = choose|h: int| 0 <= h < a.len() && (#[trigger] a[h]).0 == b[m].0;
        assert(a[h] == b[m]);
        if h < m {
            assert(outranks(b[h], b[m]));
        }
        if j > m {
            assert(outranks(b[m], b[j]));
            if h > m {
                assert(outranks(a[m], a[h]));
            }
        }
    }
}

/// Where no point of the local map is culled, the points and their indices are in step.
pub proof fn lemma_live_points_in_step(pts: Seq<MapPoint>, indices: Seq<usize>)
    requires
        forall|j: int|
            0 <= j < indices.len() ==> (#[trigger] indices[j]) < pts.len()
                && !pts[indices[j] as int].culled,
    ensures
        live_points(pts, indices).len() == indices.len(),
        forall|j: int|
            0 <= j < indices.len() ==> #[trigger] live_points(pts, indices)[j]
                == pts[indices[j] as int],
    decreases indices.len(),
{
    if indices.len() > 0 {
        let head = indices.drop_last();
        assert forall|j: int| 0 <= j < head.len() implies (#[trigger] head[j]) < pts.len()
            && !pts[head[j] as int].culled by {
            assert(head[j] == indices[j]);
        }
        lemma_live_points_in_step(pts, head);
        assert(indices[indices.len() - 1] == indices.last());
        assert forall|j: int| 0 <= j < indices.len() implies #[trigger] live_points(
            pts,
            indices,
        )[j] == pts[indices[j] as int] by {
            if j < head.len() {
                assert(live_points(pts, head)[j] == pts[head[j] as int]);
            }
        }
    }
}

/// No culled point is in the local map.
pub proof fn lemma_live_points_not_culled(pts: Seq<MapPoint>, indices: Seq<usize>)
    ensures
        forall|j: int|
            0 <= j < live_points(pts, indices).len() ==> !(#[trigger] live_points(
                pts,
                indices,
            )[j]).culled,
    decreases indices.len(),
{
    if indices.len() > 0 {
        lemma_live_points_not_culled(pts, indices.drop_last());
        let head = live_points(pts, indices.drop_last());
        assert forall|j: int| 0 <= j < live_points(pts, indices).len() implies !(
        #[trigger] live_points(pts, indices)[j]).culled by {
            assert(j < head.len() ==> !head[j].culled);
        }
    }
}

/// Counts the votes of each keyframe that gets one.
fn tally_votes(pts: &[MapPoint], matched: &[(usize, usize)]) -> (tally: Vec<(usize, usize)>)
    ensures
        forall|j: int|
            0 <= j < tally@.len() ==> (#[trigger] tally@[j]).1 == votes(
                pts@,
                matched@,
                tally@[j].0,
            ) && tally@[j].1 > 0,
        forall|i: int, j: int|
            0 <= i < j < tally@.len() ==> (#[trigger] tally@[i]).0 != (#[trigger] tally@[j]).0,
        forall|kf: usize| #[trigger] votes(pts@, matched@, kf) > 0 ==> lists(tally@, kf),
{
    let mut tally: Vec<(usize, usize)> = Vec::new();
    let mut t: usize = 0;
    proof {
        assert(matched@.take(0) =~= Seq::empty());
    }
    while t < matched.len()
        invariant
            t <= matched@.len(),
            forall|j: int|
                0 <= j < tally@.len() ==> (#[trigger] tally@[j]).1 == votes(
                    pts@,
                    matched@.take(t as int),
                    tally@[j].0,
                ) && 0 < tally@[j].1 <= t,
            forall|i: int, j: int|
                0 <= i < j < tally@.len() ==> (#[trigger] tally@[i]).0 != (#[trigger] tally@[j]).0,
            forall|kf: usize| #[trigger]
                votes(pts@, matched@.take(t as int), kf) > 0 ==> lists(tally@, kf),
        decreases matched@.len() - t,
    {
        let ghost before = tally@;
        let ghost seen = matched@.take(t as int);
        let ghost next = matched@.take(t + 1);
        proof {
            assert(next.drop_last() =~= seen);
            assert(next.last() == matched@[t as int]);
        }
        let mp_idx: usize = matched[t].0;
        if mp_idx < pts.len() {
            let kf: usize = pts[mp_idx].keyframe_idx;
            let mut p: usize = 0;
            while p < tally.len() && tally[p].0 != kf
                invariant
                    p <= tally@.len(),
                    forall|j: int| 0 <= j < p ==> (#[trigger] tally@[j]).0 != kf,
                decreases tally@.len() - p,
            {
                p += 1;
            }
            if p < tally.len() {
                let count: usize = tally[p].1 + 1;
                tally.set(p, (kf, count));
                assert forall|id: usize| #[trigger] votes(pts@, next, id) > 0 implies lists(
                    tally@,
                    id,
                ) by {
                    if id == kf {
                        assert(tally@[p as int].0 == id);
                    } else {
                        assert(votes(pts@, seen, id) > 0);
                        let j = choose|j: int|
                            0 <= j < before.len() && (#[trigger] before[j]).0 == id;
                        assert(tally@[j].0 == id);
                    }
                }
            } else {
                assert(votes(pts@, seen, kf) > 0 ==> lists(tally@, kf));
                tally.push((kf, 1));
                assert forall|id: usize| #[trigger] votes(pts@, next, id) > 0 implies lists(
                    tally@,
                    id,
                ) by {
                    if id == kf {
                        assert(tally@[before.len() as int].0 == id);
                    } else {
                        assert(votes(pts@, seen, id) > 0);
                        let j = choose|j: int|
                            0 <= j < before.len() && (#[trigger] before[j]).0 == id;
                        assert(tally@[j].0 == id);
                    }
                }
            }
        } else {
            assert forall|id: usize| #[trigger] votes(pts@, next, id) > 0 implies lists(
                tally@,
                id,
            ) by {
                assert(votes(pts@, seen, id) > 0);
            }
        }
        t += 1;
    }
    assert(matched@.take(t as int) =~= matched@);
    tally
}

/// Puts the keyframes with votes in the order of their rank.
fn rank_votes(
    tally: Vec<(usize, usize)>,
    Ghost(pts): Ghost<Seq<MapPoint>>,
    Ghost(matched): Ghost<Seq<(usize, usize)>>,
) -> (order: Vec<(usize, usize)>)
    requires
        forall|j: int|
            0 <= j < tally@.len() ==> (#[trigger] tally@[j]).1 == votes(pts, matched, tally@[j].0)
                && tally@[j].1 > 0,
        forall|i: int, j: int|
            0 <= i < j < tally@.len() ==> (#[trigger] tally@[i]).0 != (#[trigger] tally@[j]).0,
        forall|kf: usize| #[trigger] votes(pts, matched, kf) > 0 ==> lists(tally@, kf),
    ensures
        is_ranking(order@, pts, matched),
{
    let mut order: Vec<(usize, usize)> = Vec::new();
    let mut t: usize = 0;
    while t < tally.len()
        invariant
            t <= tally@.len(),
            forall|i: int, j: int|
                0 <= i < j < tally@.len() ==> (#[trigger] tally@[i]).0 != (#[trigger] tally@[j]).0,
            forall|i: int, j: int|
                0 <= i < j < order@.len() ==> outranks(#[trigger] order@[i], #[trigger] order@[j]),
            forall|j: int|
                0 <= j < order@.len() ==> exists|i: int|
                    0 <= i < t && #[trigger] order@[j] == #[trigger] tally@[i],
            forall|i: int| 0 <= i < t ==> order@.contains(#[trigger] tally@[i]),
        decreases tally@.len() - t,
    {
        let ghost before = order@;
        let item: (usize, usize) = tally[t];
        let mut p: usize = 0;
        while p < order.len() && (order[p].1 > item.1 || (order[p].1 == item.1 && order[p].0
            > item.0))
            invariant
                p <= order@.len(),
                forall|j: int| 0 <= j < p ==> outranks(#[trigger] order@[j], item),
            decreases order@.len() - p,
        {
            p += 1;
        }
        proof {
            if p < order@.len() {
                let i = choose|i: int|
                    0 <= i < t && #[trigger] order@[p as int] == #[trigger] tally@[i];
                assert(tally@[i].0 != tally@[t as int].0);
                assert(outranks(item, order@[p as int]));
            }
        }
        order.insert(p, item);
        proof {
            assert forall|j: int| 0 <= j < order@.len() implies exists|i: int|
                0 <= i < t + 1 && #[trigger] order@[j] == #[trigger] tally@[i] by {
                if j < p {
                    assert(order@[j] == before[j]);
                } else if j == p {
                    assert(order@[j] == tally@[t as int]);
                } else {
                    assert(order@[j] == before[j - 1]);
                }
            }
            assert forall|i: int| 0 <= i < t + 1 implies order@.contains(#[trigger] tally@[i]) by {
                if i < t {
                    assert(before.contains(tally@[i]));
                    let j = choose|j: int| 0 <= j < before.len() && before[j] == tally@[i];
                    if j < p {
                        assert(order@[j] == tally@[i]);
                    } else {
                        assert(order@[j + 1] == tally@[i]);
                    }
                } else {
                    assert(order@[p as int] == tally@[i]);
                }
            }
            assert forall|i: int, j: int| 0 <= i < j < order@.len() implies outranks(
                #[trigger] order@[i],
                #[trigger] order@[j],
            ) by {
                if j < p {
                    assert(outranks(before[i], before[j]));
                } else if j == p {
                    assert(outranks(before[i], item));
                } else {
                    assert(order@[j] == before[j - 1]);
                    if i < p {
                        assert(outranks(before[i], before[j - 1]));
                    } else if i == p {
                        if p < j - 1 {
                            assert(outranks(before[p as int], before[j - 1]));
                        }
                    } else {
                        assert(outranks(before[i - 1], before[j - 1]));
                    }
                }
            }
        }
        t += 1;
    }
    proof {
        assert forall|kf: usize| #[trigger] votes(pts, matched, kf) > 0 implies lists(
            order@,
            kf,
        ) by {
            let i = choose|i: int| 0 <= i < tally@.len() && (#[trigger] tally@[i]).0 == kf;
            assert(order@.contains(tally@[i]));
            let j = choose|j: int| 0 <= j < order@.len() && order@[j] == tally@[i];
            assert(order@[j].0 == kf);
        }
    }
    order
}

/// The frame indices of the local keyframes.
fn local_keyframes(
    kfs: &[Keyframe],
    order: &Vec<(usize, usize)>,
    current: Option<&Keyframe>,
) -> (ids: Vec<usize>)
    ensures
        forall|id: usize| #[trigger] ids@.contains(id) <==> is_local(kfs@, order@, frame_idx(current), id),
{
    let mut ids: Vec<usize> = Vec::new();
    if let Some(kf) = current {
        ids.push(kf.frame.idx);
        assert(ids@[0] == kf.frame.idx);
    }
    let ghost own = ids@;
    assert forall|id: usize| #[trigger] own.contains(id) <==> frame_idx(current) == Some(id) by {}
    let mut j: usize = 0;
    while j < order.len() && j < MAX_VOTED_KEYFRAMES
        invariant
            j <= order@.len(),
            j <= MAX_VOTED_KEYFRAMES,
            forall|id: usize|
                #[trigger] ids@.contains(id) <==> own.contains(id) || exists|i: int|
                    0 <= i < j && (#[trigger] order@[i]).0 == id,
        decreases order@.len() - j,
    {
        let ghost before = ids@;
        ids.push(order[j].0);
        assert forall|id: usize|
            #[trigger] ids@.contains(id) <==> own.contains(id) || exists|i: int|
                0 <= i < j + 1 && (#[trigger] order@[i]).0 == id by {
            lemma_contains_push(before, order@[j as int].0, id);
            assert(before.contains(id) <==> own.contains(id) || exists|i: int|
                0 <= i < j && (#[trigger] order@[i]).0 == id);
        }
        j += 1;
    }
    let ghost ranked = ids@;
    let n: usize = kfs.len();
    let start: usize = if n > MAX_RECENT_KEYFRAMES {
        n - MAX_RECENT_KEYFRAMES
    } else {
        0
    };
    let mut k: usize = start;
    while k < n
        invariant
            start <= k <= n,
            n == kfs@.len(),
            forall|id: usize|
                #[trigger] ids@.contains(id) <==> ranked.contains(id) || exists|i: int|
                    start <= i < k && (#[trigger] kfs@[i]).frame.idx == id,
        decreases n - k,
    {
        let ghost before = ids@;
        ids.push(kfs[k].frame.idx);
        assert forall|id: usize|
            #[trigger] ids@.contains(id) <==> ranked.contains(id) || exists|i: int|
                start <= i < k + 1 && (#[trigger] kfs@[i]).frame.idx == id by {
            lemma_contains_push(before, kfs@[k as int].frame.idx, id);
            assert(before.contains(id) <==> ranked.contains(id) || exists|i: int|
                start <= i < k && (#[trigger] kfs@[i]).frame.idx == id);
        }
        k += 1;
    }
    assert forall|id: usize|
        #[trigger] ids@.contains(id) <==> is_local(kfs@, order@, frame_idx(current), id) by {
        assert(ranked.contains(id) <==> own.contains(id) || exists|i: int|
            0 <= i < j && (#[trigger] order@[i]).0 == id);
        if is_local(kfs@, order@, frame_idx(current), id) {
            if frame_idx(current) == Some(id) {
            } else if exists|i: int|
                0 <= i < order@.len() && i < MAX_VOTED_KEYFRAMES && (#[trigger] order@[i]).0
                    == id {
                let i = choose|i: int|
                    0 <= i < order@.len() && i < MAX_VOTED_KEYFRAMES && (#[trigger] order@[i]).0
                        == id;
                assert(i < j);
            } else {
                let i = choose|i: int|
                    0 <= i < kfs@.len() && kfs@.len() - MAX_RECENT_KEYFRAMES <= i && (
                    #[trigger] kfs@[i]).frame.idx == id;
                assert(start <= i < k);
            }
        }
    }
    ids
}

proof fn lemma_contains_push(items: Seq<usize>, item: usize, x: usize)
    ensures
        items.push(item).contains(x) <==> items.contains(x) || x == item,
{
    if items.contains(x) {
        let i = choose|i: int| 0 <= i < items.len() && items[i] == x;
        assert(items.push(item)[i] == x);
    }
    assert(items.push(item)[items.len() as int] == item);
}

fn is_listed(ids: &Vec<usize>, id: usize) -> (found: bool)
    ensures
        found == ids@.contains(id),
{
    let mut i: usize = 0;
    while i < ids.len()
        invariant
            i <= ids@.len(),
            forall|j: int| 0 <= j < i ==> ids@[j] != id,
        decreases ids@.len() - i,
    {
        if ids[i] == id {
            return true;
        }
        i += 1;
    }
    false
}

/// Flags the points that the slots refer to.
fn flag_referred(slots: &Vec<Option<usize>>, flags: &mut Vec<bool>)
    ensures
        final(flags)@.len() == old(flags)@.len(),
        forall|i: int|
            0 <= i < old(flags)@.len() ==> (#[trigger] final(flags)@[i] <==> old(flags)@[i]
                || refers(slots@, i)),
{
    let mut d: usize = 0;
    while d < slots.len()
        invariant
            d <= slots@.len(),
            flags@.len() == old(flags)@.len(),
            forall|i: int|
                0 <= i < flags@.len() ==> (#[trigger] flags@[i] <==> old(flags)@[i] || refers(
                    slots@.take(d as int),
                    i,
                )),
        decreases slots@.len() - d,
    {
        let ghost before = flags@;
        if let Some(i) = slots[d] {
            if i < flags.len() {
                flags.set(i, true);
            }
        }
        assert forall|i: int| 0 <= i < flags@.len() implies (#[trigger] flags@[i] <==> old(
            flags,
        )@[i] || refers(slots@.take(d + 1), i)) by {
            let head = slots@.take(d as int);
            let next = slots@.take(d + 1);
            assert(before[i] <==> old(flags)@[i] || refers(head, i));
            if refers(head, i) {
                let e = choose|e: int| 0 <= e < head.len() && #[trigger] head[e] == Some(i as usize);
                assert(next[e] == Some(i as usize));
            }
            if refers(next, i) {
                let e = choose|e: int| 0 <= e < next.len() && #[trigger] next[e] == Some(i as usize);
                if e < d {
                    assert(head[e] == Some(i as usize));
                }
            }
            assert(next[d as int] == slots@[d as int]);
        }
        d += 1;
    }
    assert(slots@.take(d as int) =~= slots@);
}

/// Flags the points that are matched.
pub(crate) fn flag_tracked(n: usize, matched: &[(usize, usize)]) -> (flags: Vec<bool>)
    ensures
        flags@.len() == n,
        forall|i: int| 0 <= i < n ==> #[trigger] flags@[i] == is_tracked(matched@, i),
{
    let mut flags: Vec<bool> = vec![false; n];
    let mut t: usize = 0;
    while t < matched.len()
        invariant
            t <= matched@.len(),
            flags@.len() == n,
            forall|i: int|
                0 <= i < n ==> #[trigger] flags@[i] == is_tracked(matched@.take(t as int), i),
        decreases matched@.len() - t,
    {
        let ghost before = flags@;
        let mp_idx: usize = matched[t].0;
        if mp_idx < n {
            flags.set(mp_idx, true);
        }
        assert forall|i: int| 0 <= i < n implies #[trigger] flags@[i] == is_tracked(
            matched@.take(t + 1),
            i,
        ) by {
            let head = matched@.take(t as int);
            let next = matched@.take(t + 1);
            assert(before[i] == is_tracked(head, i));
            if is_tracked(head, i) {
                let e = choose|e: int| 0 <= e < head.len() && (#[trigger] head[e]).0 == i;
                assert(next[e].0 == i);
            }
            if is_tracked(next, i) {
                let e = choose|e: int| 0 <= e < next.len() && (#[trigger] next[e]).0 == i;
                if e < t {
                    assert(head[e].0 == i);
                }
            }
            assert(next[t as int].0 == mp_idx);
        }
        t += 1;
    }
    assert(matched@.take(t as int) =~= matched@);
    flags
}

/// The indices of the flags that are set.
fn flagged_indices(flags: &Vec<bool>) -> (indices: Vec<usize>)
    ensures
        indices@ == indices_where(flags@.len(), |i: int| flags@[i]),
{
    let mut indices: Vec<usize> = Vec::new();
    let mut i: usize = 0;
    while i < flags.len()
        invariant
            i <= flags@.len(),
            indices@ == indices_where(i as nat, |j: int| flags@[j]),
        decreases flags@.len() - i,
    {
        if flags[i] {
            indices.push(i);
        }
        i += 1;
    }
    indices
}

fn all_indices(n: usize) -> (indices: Vec<usize>)
    ensures
        indices@ == indices_where(n as nat, |i: int| true),
{
    let mut indices: Vec<usize> = Vec::new();
    let mut i: usize = 0;
    while i < n
        invariant
            i <= n,
            indices@ == indices_where(i as nat, |j: int| true),
        decreases n - i,
    {
        indices.push(i);
        i += 1;
    }
    indices
}

fn collect_live(pts: &[MapPoint], indices: &Vec<usize>) -> (points: Vec<MapPoint>)
    ensures
        points@ == live_points(pts@, indices@),
{
    let mut points: Vec<MapPoint> = Vec::new();
    let mut i: usize = 0;
    assert(indices@.take(0) =~= Seq::empty());
    while i < indices.len()
        invariant
            i <= indices@.len(),
            points@ == live_points(pts@, indices@.take(i as int)),
        decreases indices@.len() - i,
    {
        assert(indices@.take(i + 1).drop_last() =~= indices@.take(i as int));
        let idx: usize = indices[i];
        if idx < pts.len() && !pts[idx].culled {
            points.push(pts[idx]);
        }
        i += 1;
    }
    assert(indices@.take(i as int) =~= indices@);
    points
}

impl SlamMap {
    /// Build a local map of map points visible from nearby keyframes.
    ///
    /// Finds keyframes related by covisibility (shared map point observations)
    /// and recency, then collects the points they refer to. Returns the points that are
    /// not culled, and the indices of all that were collected.
    pub fn build_local_map_points(
        &self,
        tracked_matches: &[(usize, usize)],
        current_keyframe: Option<&Keyframe>,
    ) -> (local: (Vec<MapPoint>, Vec<usize>))
        ensures
            is_local_map(
                *self,
                tracked_matches@,
                frame_idx(current_keyframe),
                local.0@,
                local.1@,
            ),
    {
        let pts = self.map_points();
        let kfs = self.keyframes();
        let ghost matched = tracked_matches@;
        let ghost current = frame_idx(current_keyframe);
        let tally = tally_votes(pts, tracked_matches);
        let order = rank_votes(tally, Ghost(pts@), Ghost(matched));
        let ids = local_keyframes(kfs, &order, current_keyframe);
        let mut flags = flag_tracked(pts.len(), tracked_matches);
        let mut k: usize = 0;
        while k < kfs.len()
            invariant
                k <= kfs@.len(),
                kfs@ == self.kfs(),
                flags@.len() == pts@.len(),
                current == frame_idx(current_keyframe),
                forall|id: usize| #[trigger] ids@.contains(id) <==> is_local(kfs@, order@, current, id),
                forall|i: int|
                    0 <= i < flags@.len() ==> (#[trigger] flags@[i] <==> is_tracked(matched, i)
                        || exists|h: int|
                        0 <= h < k && is_local(
                            kfs@,
                            order@,
                            current,
                            (#[trigger] kfs@[h]).frame.idx,
                        ) && refers(kfs@[h].map_point_by_desc_idx@, i)),
            decreases kfs@.len() - k,
        {
            let ghost before = flags@;
            if is_listed(&ids, kfs[k].frame.idx) {
                flag_referred(&kfs[k].map_point_by_desc_idx, &mut flags);
            }
            assert forall|i: int| 0 <= i < flags@.len() implies (#[trigger] flags@[i]
                <==> is_tracked(matched, i) || exists|h: int|
                0 <= h < k + 1 && is_local(kfs@, order@, current, (#[trigger] kfs@[h]).frame.idx)
                    && refers(kfs@[h].map_point_by_desc_idx@, i)) by {
                assert(before[i] <==> is_tracked(matched, i) || exists|h: int|
                    0 <= h < k && is_local(kfs@, order@, current, (#[trigger] kfs@[h]).frame.idx)
                        && refers(kfs@[h].map_point_by_desc_idx@, i));
                let now = kfs@[k as int];
            }
            k += 1;
        }
        let mut indices = flagged_indices(&flags);
        proof {
            lemma_indices_where_agree(
                pts@.len(),
                |i: int| flags@[i],
                |i: int| is_selected(self.kfs(), order@, current, matched, i),
            );
        }
        if indices.len() < MIN_LOCAL_POINTS && pts.len() >= MIN_LOCAL_POINTS {
            indices = all_indices(pts.len());
        }
        let points = collect_live(pts, &indices);
        (points, indices)
    }
}

/// The indices of the local map are ascending and name map points.
pub proof fn lemma_local_map_indices(
    map: SlamMap,
    matched: Seq<(usize, usize)>,
    current: Option<usize>,
    points: Seq<MapPoint>,
    indices: Seq<usize>,
)
    requires
        is_local_map(map, matched, current, points, indices),
        map.pts().len() <= usize::MAX,
    ensures
        forall|i: int, j: int| 0 <= i < j < indices.len() ==> indices[i] < indices[j],
        forall|i: int| 0 <= i < indices.len() ==> #[trigger] indices[i] < map.pts().len(),
{
    let order = choose|order: Seq<(usize, usize)>| #[trigger]
        is_ranking(order, map.pts(), matched) && indices == local_indices(
            map,
            order,
            current,
            matched,
        );
    let n = map.pts().len();
    crate::selection::lemma_indices_where(
        n,
        |i: int| is_selected(map.kfs(), order, current, matched, i),
    );
    crate::selection::lemma_indices_where(n, |i: int| true);
}

/// The votes for a keyframe are the matches with points that it was the first to observe.
pub proof fn lemma_votes(pts: Seq<MapPoint>, matched: Seq<(usize, usize)>, kf: usize)
    ensures
        votes(pts, matched, kf) == matched.filter(
            |m: (usize, usize)| m.0 < pts.len() && pts[m.0 as int].keyframe_idx == kf,
        ).len(),
    decreases matched.len(),
{
    reveal(Seq::filter);
    if matched.len() > 0 {
        lemma_votes(pts, matched.drop_last(), kf);
    }
}

/// A keyframe with more votes ranks before one with fewer, and of two with as many the later.
pub proof fn lemma_ranking(
    order: Seq<(usize, usize)>,
    pts: Seq<MapPoint>,
    matched: Seq<(usize, usize)>,
    i: int,
    j: int,
)
    requires
        is_ranking(order, pts, matched),
        0 <= i < j < order.len(),
    ensures
        votes(pts, matched, order[i].0) >= votes(pts, matched, order[j].0) > 0,
        votes(pts, matched, order[i].0) == votes(pts, matched, order[j].0) ==> order[i].0
            > order[j].0,
{
    assert(outranks(order[i], order[j]));
}

/// The points of the local map are those of its indices that are not culled, in order.
pub proof fn lemma_live_points(pts: Seq<MapPoint>, indices: Seq<usize>)
    ensures
        live_points(pts, indices) == indices.filter(
            |i: usize| i < pts.len() && !pts[i as int].culled,
        ).map_values(|i: usize| pts[i as int]),
    decreases indices.len(),
{
    reveal(Seq::filter);
    let is_live = |i: usize| i < pts.len() && !pts[i as int].culled;
    let at = |i: usize| pts[i as int];
    if indices.len() > 0 {
        lemma_live_points(pts, indices.drop_last());
    }
    assert(live_points(pts, indices) =~= indices.filter(is_live).map_values(at));
}

/// Keyframe `k` refers to map point `i`.
pub open spec fn keyframe_refers(kfs: Seq<Keyframe>, k: int, i: int) -> bool {
    &&& 0 <= k < kfs.len()
    &&& exists|d: int|
        0 <= d < kfs[k].map_point_by_desc_idx@.len()
            && #[trigger] kfs[k].map_point_by_desc_idx@[d] == Some(i as usize)
}

/// The local map holds every point that is matched, and every point that the current keyframe
/// refers to, or one of the ten latest, or one of the ten with the most votes.
pub proof fn lemma_local_map_holds(
    map: SlamMap,
    matched: Seq<(usize, usize)>,
    current: Option<usize>,
    points: Seq<MapPoint>,
    indices: Seq<usize>,
    order: Seq<(usize, usize)>,
    i: int,
)
    requires
        is_local_map(map, matched, current, points, indices),
        is_ranking(order, map.pts(), matched),
        map.pts().len() <= usize::MAX,
        0 <= i < map.pts().len(),
        (exists|t: int| 0 <= t < matched.len() && (#[trigger] matched[t]).0 == i) || (exists|k: int|
            {
                &&& #[trigger] keyframe_refers(map.kfs(), k, i)
                &&& {
                    ||| Some(map.kfs()[k].frame.idx) == current
                    ||| k >= map.kfs().len() - 10
                    ||| exists|j: int|
                        0 <= j < order.len() && j < 10 && (#[trigger] order[j]).0
                            == map.kfs()[k].frame.idx
                }
            }),
    ensures
        indices.contains(i as usize),
{
    let n = map.pts().len();
    let other = choose|order: Seq<(usize, usize)>| #[trigger]
        is_ranking(order, map.pts(), matched) && indices == local_indices(
            map,
            order,
            current,
            matched,
        );
    lemma_ranking_unique(order, other, map.pts(), matched);
    let chosen = |i: int| is_selected(map.kfs(), order, current, matched, i);
    crate::selection::lemma_indices_where(n, chosen);
    crate::selection::lemma_indices_where(n, |i: int| true);
    let all = |i: int| true;
    assert(all(i as usize as int));
    if !(exists|t: int| 0 <= t < matched.len() && (#[trigger] matched[t]).0 == i) {
        let k = choose|k: int|
            {
                &&& #[trigger] keyframe_refers(map.kfs(), k, i)
                &&& {
                    ||| Some(map.kfs()[k].frame.idx) == current
                    ||| k >= map.kfs().len() - 10
                    ||| exists|j: int|
                        0 <= j < order.len() && j < 10 && (#[trigger] order[j]).0
                            == map.kfs()[k].frame.idx
                }
            };
        assert(is_local(map.kfs(), order, current, map.kfs()[k].frame.idx));
        assert(refers(map.kfs()[k].map_point_by_desc_idx@, i));
    } else {
        assert(is_tracked(matched, i));
    }
    assert(chosen(i as usize as int));
}

/// Unless the whole map is taken because fewer than four points were chosen, the local map holds
/// nothing else: every point of it is matched, or a keyframe refers to it that has the frame
/// index of the current one, of one of the ten latest, or of one of the ten with the most
/// votes.
pub proof fn lemma_local_map_holds_no_more(
    map: SlamMap,
    matched: Seq<(usize, usize)>,
    current: Option<usize>,
    points: Seq<MapPoint>,
    indices: Seq<usize>,
    order: Seq<(usize, usize)>,
    i: int,
)
    requires
        is_local_map(map, matched, current, points, indices),
        is_ranking(order, map.pts(), matched),
        map.pts().len() <= usize::MAX,
        indices.len() < map.pts().len(),
        0 <= i < map.pts().len(),
        indices.contains(i as usize),
    ensures
        (exists|t: int| 0 <= t < matched.len() && (#[trigger] matched[t]).0 == i) || (exists|k: int|
            {
                let id = map.kfs()[k].frame.idx;
                &&& #[trigger] keyframe_refers(map.kfs(), k, i)
                &&& {
                    ||| Some(id) == current
                    ||| exists|h: int|
                        0 <= h < map.kfs().len() && h >= map.kfs().len() - 10 && (
                        #[trigger] map.kfs()[h]).frame.idx == id
                    ||| exists|j: int|
                        0 <= j < order.len() && j < 10 && (#[trigger] order[j]).0 == id
                }
            }),
{
    let n = map.pts().len();
    let other = choose|order: Seq<(usize, usize)>| #[trigger]
        is_ranking(order, map.pts(), matched) && indices == local_indices(
            map,
            order,
            current,
            matched,
        );
    lemma_ranking_unique(order, other, map.pts(), matched);
    let chosen = |i: int| is_selected(map.kfs(), order, current, matched, i);
    crate::selection::lemma_indices_where(n, chosen);
    lemma_all_indices(n);
    let a = choose|a: int| 0 <= a < indices.len() && indices[a] == i as usize;
    assert(chosen(indices[a] as int));
    if !is_tracked(matched, i) {
        let k = choose|k: int|
            0 <= k < map.kfs().len() && is_local(
                map.kfs(),
                order,
                current,
                (#[trigger] map.kfs()[k]).frame.idx,
            ) && refers(map.kfs()[k].map_point_by_desc_idx@, i);
        assert(keyframe_refers(map.kfs(), k, i));
    }
}

proof fn lemma_all_indices(n: nat)
    ensures
        indices_where(n, |i: int| true).len() == n,
    decreases n,
{
    if n > 0 {
        lemma_all_indices((n - 1) as nat);
    }
}

/// Where the map has at least four points, so has the local map, and where fewer were chosen it
/// is the whole map.
pub proof fn lemma_local_map_is_large_enough(
    map: SlamMap,
    matched: Seq<(usize, usize)>,
    current: Option<usize>,
    points: Seq<MapPoint>,
    indices: Seq<usize>,
)
    requires
        is_local_map(map, matched, current, points, indices),
    ensures
        map.pts().len() >= 4 ==> indices.len() >= 4,
        indices.len() <= map.pts().len(),
{
    let n = map.pts().len();
    let order = choose|order: Seq<(usize, usize)>| #[trigger]
        is_ranking(order, map.pts(), matched) && indices == local_indices(
            map,
            order,
            current,
            matched,
        );
    lemma_all_indices(n);
    lemma_indices_len(n, |i: int| is_selected(map.kfs(), order, current, matched, i));
}

proof fn lemma_indices_len(n: nat, p: spec_fn(int) -> bool)
    ensures
        indices_where(n, p).len() <= n,
    decreases n,
{
    if n > 0 {
        lemma_indices_len((n - 1) as nat, p);
    }
}

} // verus!
