//! Visual-inertial initialization: which keyframes and IMU factors take part, how the linear
//! system is laid out, and what the result changes.

use crate::double::{
    above, at_least, has_finite, is_above, is_at_least, is_finite, number,
};
use crate::frame::Frame;
use crate::geometry::{
    add_vectors, inverse_pose, invert, length_bits, length_of, subtract_vectors, translation,
    translation_of, vector_difference, vector_sum,
};
use crate::mapping::map::{Keyframe, MapPoint, SlamMap};
use crate::selection::indices_where;
use crate::system::SystemState;
use kornia_3d::pose::Pose3d;
use kornia_algebra::Vec3F64;
use vstd::prelude::*;

verus! {

/// The bits of one.
pub const UNIT_SCALE: u64 = 0x3ff0_0000_0000_0000;

/// The bits of a tenth: a smaller scale is not believed.
pub const MIN_SCALE: u64 = 0x3fb9_9999_9999_999a;

/// Thresholds of inertial initialization. `T` is the type of durations.
#[derive(Debug)]
pub struct ImuInitConfig<T> {
    pub min_keyframes: usize,
    pub min_time_sec: T,
    /// Smallest distance between the first and the last camera, by its bits.
    pub min_motion: u64,
}

/// IMU biases.
#[derive(Debug, Clone, Copy)]
pub struct ImuBias {
    pub gyro: Vec3F64,
    pub accel: Vec3F64,
}

/// What inertial initialization gives.
#[derive(Debug)]
pub struct ImuInitResult {
    /// The metric scale of the map, by its bits.
    pub scale: u64,
    pub gravity_world: Vec3F64,
    pub velocities_world: Vec<Vec3F64>,
    pub bias: ImuBias,
}

/// Preintegrated measurements between two keyframes, named by their frame indices.
#[derive(Debug)]
pub struct ImuFactor<M> {
    pub prev_kf_idx: usize,
    pub curr_kf_idx: usize,
    pub preintegrated: M,
}

/// Velocity and IMU bias of a keyframe.
#[derive(Debug, Clone, Copy)]
pub struct InertialState {
    pub velocity_world: Vec3F64,
    pub imu_bias: ImuBias,
}

/// A factor that takes part: its measurements, and the places of its keyframes in the window.
#[derive(Debug)]
pub struct InitEdge<M> {
    pub preintegrated: M,
    pub from: usize,
    pub to: usize,
}

/// What is solved for: the keyframes of the window by their position in the map, in order
/// of their frame indices; the factors between them; a velocity per keyframe to start from;
/// and whether the scale is unknown.
#[derive(Debug)]
pub struct InitProblem<M> {
    pub window: Vec<usize>,
    pub edges: Vec<InitEdge<M>>,
    pub velocities: Vec<Vec3F64>,
    pub is_mono: bool,
}

/// Solves for scale, gravity, velocities and biases that explain the IMU measurements.
#[derive(Debug)]
pub struct ImuInitializer<T> {
    pub config: ImuInitConfig<T>,
}

/// Keyframe `p` of the map is in the window.
pub open spec fn in_window(kfs: Seq<Keyframe>, start_idx: usize, p: int) -> bool {
    kfs[p].frame.idx >= start_idx
}

/// Positions of the keyframes of the window, in the order of the map.
pub open spec fn window_of(kfs: Seq<Keyframe>, start_idx: usize) -> Seq<usize> {
    indices_where(kfs.len(), |p: int| in_window(kfs, start_idx, p))
}

/// Of two keyframes of the map, the first comes first: by frame index, then by position.
pub open spec fn comes_first(kfs: Seq<Keyframe>, a: usize, b: usize) -> bool {
    let i = kfs[a as int].frame.idx;
    let j = kfs[b as int].frame.idx;
    i < j || (i == j && a < b)
}

/// `order` lists the keyframes of the window by frame index.
pub open spec fn is_window_order(kfs: Seq<Keyframe>, start_idx: usize, order: Seq<usize>) -> bool {
    &&& forall|a: int, b: int|
        0 <= a < b < order.len() ==> comes_first(kfs, #[trigger] order[a], #[trigger] order[b])
    &&& forall|a: int|
        0 <= a < order.len() ==> (#[trigger] order[a]) < kfs.len() && in_window(
            kfs,
            start_idx,
            order[a] as int,
        )
    &&& forall|p: int|
        0 <= p < kfs.len() && #[trigger] in_window(kfs, start_idx, p) ==> order.contains(p as usize)
}

/// Place in the window of the keyframe with a frame index: the last one, if there are more.
pub open spec fn local_of(kfs: Seq<Keyframe>, order: Seq<usize>, frame_idx: usize) -> Option<usize>
    decreases order.len(),
{
    if order.len() == 0 {
        None
    } else if kfs[order.last() as int].frame.idx == frame_idx {
        Some((order.len() - 1) as usize)
    } else {
        local_of(kfs, order.drop_last(), frame_idx)
    }
}

/// The factor is between keyframes of the window.
pub open spec fn is_inside<M>(
    kfs: Seq<Keyframe>,
    order: Seq<usize>,
    factor: ImuFactor<M>,
) -> bool {
    &&& local_of(kfs, order, factor.prev_kf_idx) is Some
    &&& local_of(kfs, order, factor.curr_kf_idx) is Some
}

/// The factors among the first `n` that take part: those between keyframes of the window
/// that are usable.
pub open spec fn edges_of<M>(
    kfs: Seq<Keyframe>,
    order: Seq<usize>,
    factors: Seq<ImuFactor<M>>,
    usable: Seq<bool>,
    n: nat,
) -> Seq<InitEdge<M>>
    decreases n,
{
    if n == 0 {
        Seq::empty()
    } else {
        let before = edges_of(kfs, order, factors, usable, (n - 1) as nat);
        if is_inside(kfs, order, factors[n - 1]) && usable[n - 1] {
            before.push(
                InitEdge {
                    preintegrated: factors[n - 1].preintegrated,
                    from: local_of(kfs, order, factors[n - 1].prev_kf_idx)->0,
                    to: local_of(kfs, order, factors[n - 1].curr_kf_idx)->0,
                },
            )
        } else {
            before
        }
    }
}

/// Measurements over this time, by its bits, are usable: it is not zero or less.
pub open spec fn lasts(bits: u64) -> bool {
    !at_least(Some(0), number(bits))
}

/// `duration` gives a time for which measurements are as usable as said.
pub open spec fn tells_duration<M, U: Fn(&M) -> u64>(duration: U, measured: M, usable: bool) -> bool {
    exists|bits: u64| #[trigger]
        call_ensures(duration, (&measured,), bits) && usable == lasts(bits)
}

/// `usable` is what their duration says of the factors between keyframes of the window.
pub open spec fn tells_usable<M, U: Fn(&M) -> u64>(
    duration: U,
    kfs: Seq<Keyframe>,
    order: Seq<usize>,
    factors: Seq<ImuFactor<M>>,
    usable: Seq<bool>,
) -> bool {
    &&& usable.len() == factors.len()
    &&& forall|f: int|
        0 <= f < factors.len() && is_inside(kfs, order, factors[f]) ==> tells_duration(
            duration,
            factors[f].preintegrated,
            #[trigger] usable[f],
        )
}

/// The same velocity `n` times.
pub open spec fn all_at_rest(n: nat, at_rest: Vec3F64) -> Seq<Vec3F64> {
    Seq::new(n, |i: int| at_rest)
}

/// Velocities to start from when they are taken from the factors: each of the first `n`
/// edges sets both its keyframes to `found`; a later edge overrides an earlier one.
pub open spec fn seeded<M>(
    edges: Seq<InitEdge<M>>,
    found: Seq<Vec3F64>,
    at_rest: Seq<Vec3F64>,
    n: nat,
) -> Seq<Vec3F64>
    decreases n,
{
    if n == 0 {
        at_rest
    } else {
        seeded(edges, found, at_rest, (n - 1) as nat).update(
            edges[n - 1].from as int,
            found[n - 1],
        ).update(edges[n - 1].to as int, found[n - 1])
    }
}

proof fn lemma_local_of(kfs: Seq<Keyframe>, order: Seq<usize>, frame_idx: usize)
    requires
        order.len() <= usize::MAX,
    ensures
        match local_of(kfs, order, frame_idx) {
            None => true,
            Some(l) => l < order.len() && kfs[order[l as int] as int].frame.idx == frame_idx,
        },
    decreases order.len(),
{
    if order.len() > 0 && kfs[order.last() as int].frame.idx != frame_idx {
        lemma_local_of(kfs, order.drop_last(), frame_idx);
    }
}

/// `edge` holds the measurements of one of the first `n` factors, and the places of its
/// keyframes in the window.
pub open spec fn is_edge_of<M>(
    kfs: Seq<Keyframe>,
    order: Seq<usize>,
    factors: Seq<ImuFactor<M>>,
    n: nat,
    edge: InitEdge<M>,
) -> bool {
    &&& edge.from < order.len()
    &&& edge.to < order.len()
    &&& exists|f: int|
        {
            &&& 0 <= f < n
            &&& edge.preintegrated == (#[trigger] factors[f]).preintegrated
            &&& kfs[order[edge.from as int] as int].frame.idx == factors[f].prev_kf_idx
            &&& kfs[order[edge.to as int] as int].frame.idx == factors[f].curr_kf_idx
        }
}

/// Every edge joins two places of the window by a factor between the keyframes there.
pub proof fn lemma_edges_inside<M>(
    kfs: Seq<Keyframe>,
    order: Seq<usize>,
    factors: Seq<ImuFactor<M>>,
    usable: Seq<bool>,
    n: nat,
)
    requires
        order.len() <= usize::MAX,
        n <= factors.len(),
        factors.len() <= usize::MAX,
    ensures
        forall|e: int|
            0 <= e < edges_of(kfs, order, factors, usable, n).len() ==> is_edge_of(
                kfs,
                order,
                factors,
                n,
                #[trigger] edges_of(kfs, order, factors, usable, n)[e],
            ),
        edges_of(kfs, order, factors, usable, n).len() <= n,
    decreases n,
{
    if n > 0 {
        let m = (n - 1) as nat;
        lemma_edges_inside(kfs, order, factors, usable, m);
        lemma_local_of(kfs, order, factors[n - 1].prev_kf_idx);
        lemma_local_of(kfs, order, factors[n - 1].curr_kf_idx);
        let before = edges_of(kfs, order, factors, usable, m);
        let after = edges_of(kfs, order, factors, usable, n);
        assert forall|e: int| 0 <= e < after.len() implies is_edge_of(
            kfs,
            order,
            factors,
            n,
            #[trigger] after[e],
        ) by {
            if e < before.len() {
                assert(after[e] == before[e]);
                assert(is_edge_of(kfs, order, factors, m, before[e]));
            } else {
                assert(after[e].preintegrated == factors[n - 1].preintegrated);
            }
        }
    }
}

/// The keyframes of the window, by frame index.
fn window_order(kfs: &[Keyframe], start_idx: usize) -> (order: Vec<usize>)
    ensures
        is_window_order(kfs@, start_idx, order@),
{
    let mut order: Vec<usize> = Vec::new();
    let mut p: usize = 0;
    while p < kfs.len()
        invariant
            p <= kfs@.len(),
            forall|a: int, b: int|
                0 <= a < b < order@.len() ==> comes_first(
                    kfs@,
                    #[trigger] order@[a],
                    #[trigger] order@[b],
                ),
            forall|a: int|
                0 <= a < order@.len() ==> (#[trigger] order@[a]) < p && in_window(
                    kfs@,
                    start_idx,
                    order@[a] as int,
                ),
            forall|q: int|
                0 <= q < p && #[trigger] in_window(kfs@, start_idx, q) ==> order@.contains(
                    q as usize,
                ),
        decreases kfs@.len() - p,
    {
        let ghost before = order@;
        if kfs[p].frame.idx >= start_idx {
            let idx: usize = kfs[p].frame.idx;
            let mut at: usize = order.len();
            while at > 0 && kfs[order[at - 1]].frame.idx > idx
                invariant
                    at <= order@.len(),
                    p < kfs@.len(),
                    idx == kfs@[p as int].frame.idx,
                    forall|a: int| 0 <= a < order@.len() ==> (#[trigger] order@[a]) < p,
                    forall|a: int|
                        at <= a < order@.len() ==> kfs@[#[trigger] order@[a] as int].frame.idx
                            > idx,
                decreases at,
            {
                at -= 1;
            }
            order.insert(at, p);
            proof {
                assert forall|a: int, b: int| 0 <= a < b < order@.len() implies comes_first(
                    kfs@,
                    #[trigger] order@[a],
                    #[trigger] order@[b],
                ) by {
                    if b < at {
                        assert(comes_first(kfs@, before[a], before[b]));
                    } else if b == at {
                        if a < at - 1 {
                            assert(comes_first(kfs@, before[a], before[at - 1]));
                        }
                    } else if a < at {
                        assert(comes_first(kfs@, before[a], before[b - 1]));
                    } else if a == at {
                        assert(order@[b] == before[b - 1]);
                    } else {
                        assert(comes_first(kfs@, before[a - 1], before[b - 1]));
                    }
                }
                assert forall|a: int| 0 <= a < order@.len() implies (#[trigger] order@[a]) < p + 1
                    && in_window(kfs@, start_idx, order@[a] as int) by {
                    if a < at {
                        assert(order@[a] == before[a]);
                    } else if a > at {
                        assert(order@[a] == before[a - 1]);
                    }
                }
                assert forall|q: int|
                    0 <= q < p + 1 && #[trigger] in_window(
                        kfs@,
                        start_idx,
                        q,
                    ) implies order@.contains(q as usize) by {
                    if q < p {
                        assert(before.contains(q as usize));
                        let a = choose|a: int| 0 <= a < before.len() && before[a] == q as usize;
                        if a < at {
                            assert(order@[a] == q as usize);
                        } else {
                            assert(order@[a + 1] == q as usize);
                        }
                    } else {
                        assert(order@[at as int] == q as usize);
                    }
                }
            }
        }
        p += 1;
    }
    order
}

fn find_local(kfs: &[Keyframe], order: &Vec<usize>, frame_idx: usize) -> (local: Option<usize>)
    requires
        forall|a: int| 0 <= a < order@.len() ==> (#[trigger] order@[a]) < kfs@.len(),
    ensures
        local == local_of(kfs@, order@, frame_idx),
{
    let mut l: usize = order.len();
    assert(order@.take(l as int) =~= order@);
    while l > 0
        invariant
            l <= order@.len(),
            forall|a: int| 0 <= a < order@.len() ==> (#[trigger] order@[a]) < kfs@.len(),
            local_of(kfs@, order@, frame_idx) == local_of(
                kfs@,
                order@.take(l as int),
                frame_idx,
            ),
        decreases l,
    {
        assert(order@.take(l as int).drop_last() =~= order@.take(l - 1));
        assert(order@.take(l as int).last() == order@[l - 1]);
        if kfs[order[l - 1]].frame.idx == frame_idx {
            return Some(l - 1);
        }
        l -= 1;
    }
    None
}

proof fn lemma_edges_agree<M>(
    kfs: Seq<Keyframe>,
    order: Seq<usize>,
    factors: Seq<ImuFactor<M>>,
    a: Seq<bool>,
    b: Seq<bool>,
    n: nat,
)
    requires
        forall|f: int| 0 <= f < n ==> #[trigger] a[f] == b[f],
    ensures
        edges_of(kfs, order, factors, a, n) == edges_of(kfs, order, factors, b, n),
    decreases n,
{
    if n > 0 {
        lemma_edges_agree(kfs, order, factors, a, b, (n - 1) as nat);
        assert(a[n - 1] == b[n - 1]);
    }
}

/// `edges` are the factors that take part.
pub open spec fn is_edge_list<M, U: Fn(&M) -> u64>(
    duration: U,
    kfs: Seq<Keyframe>,
    order: Seq<usize>,
    factors: Seq<ImuFactor<M>>,
    edges: Seq<InitEdge<M>>,
) -> bool {
    exists|usable: Seq<bool>| #[trigger]
        tells_usable(duration, kfs, order, factors, usable) && edges == edges_of(
            kfs,
            order,
            factors,
            usable,
            factors.len(),
        )
}

/// The first `n` items without those that are left out.
pub open spec fn without<A>(items: Seq<A>, left_out: Seq<bool>, n: nat) -> Seq<A>
    decreases n,
{
    if n == 0 {
        Seq::empty()
    } else {
        let before = without(items, left_out, (n - 1) as nat);
        if left_out[n - 1] {
            before
        } else {
            before.push(items[n - 1])
        }
    }
}

/// `duration` says of measurements that they last no time, and never anything else.
pub open spec fn never_lasts<M, U: Fn(&M) -> u64>(duration: U, measured: M) -> bool {
    &&& tells_duration(duration, measured, false)
    &&& forall|bits: u64| #[trigger]
        call_ensures(duration, (&measured,), bits) ==> !lasts(bits)
}

/// The factor is skipped: it is not between keyframes of the window, or lasts no time.
pub open spec fn is_skipped<M, U: Fn(&M) -> u64>(
    duration: U,
    kfs: Seq<Keyframe>,
    order: Seq<usize>,
    factor: ImuFactor<M>,
) -> bool {
    !is_inside(kfs, order, factor) || never_lasts(duration, factor.preintegrated)
}

/// Only factors that are skipped are left out.
pub open spec fn leaves_out_skipped<M, U: Fn(&M) -> u64>(
    duration: U,
    kfs: Seq<Keyframe>,
    order: Seq<usize>,
    factors: Seq<ImuFactor<M>>,
    left_out: Seq<bool>,
) -> bool {
    &&& left_out.len() == factors.len()
    &&& forall|f: int|
        0 <= f < factors.len() && #[trigger] left_out[f] ==> is_skipped(
            duration,
            kfs,
            order,
            factors[f],
        )
}

proof fn lemma_edges_of_pushed<M>(
    kfs: Seq<Keyframe>,
    order: Seq<usize>,
    factors: Seq<ImuFactor<M>>,
    usable: Seq<bool>,
    factor: ImuFactor<M>,
    said: bool,
    n: nat,
)
    requires
        n <= factors.len() == usable.len(),
    ensures
        edges_of(kfs, order, factors.push(factor), usable.push(said), n) == edges_of(
            kfs,
            order,
            factors,
            usable,
            n,
        ),
    decreases n,
{
    if n > 0 {
        lemma_edges_of_pushed(kfs, order, factors, usable, factor, said, (n - 1) as nat);
        assert(factors.push(factor)[n - 1] == factors[n - 1]);
        assert(usable.push(said)[n - 1] == usable[n - 1]);
    }
}

proof fn lemma_edges_without<M>(
    kfs: Seq<Keyframe>,
    order: Seq<usize>,
    factors: Seq<ImuFactor<M>>,
    usable: Seq<bool>,
    left_out: Seq<bool>,
    n: nat,
)
    requires
        forall|f: int|
            0 <= f < n && #[trigger] left_out[f] ==> !is_inside(kfs, order, factors[f])
                || !usable[f],
    ensures
        without(factors, left_out, n).len() == without(usable, left_out, n).len(),
        edges_of(
            kfs,
            order,
            without(factors, left_out, n),
            without(usable, left_out, n),
            without(factors, left_out, n).len(),
        ) == edges_of(kfs, order, factors, usable, n),
    decreases n,
{
    if n > 0 {
        let m = (n - 1) as nat;
        lemma_edges_without(kfs, order, factors, usable, left_out, m);
        let fewer = without(factors, left_out, m);
        let said = without(usable, left_out, m);
        if !left_out[n - 1] {
            lemma_edges_of_pushed(
                kfs,
                order,
                fewer,
                said,
                factors[n - 1],
                usable[n - 1],
                fewer.len(),
            );
        }
    }
}

/// What is said of all factors where it is said of those that are not left out.
spec fn spread(left_out: Seq<bool>, said: Seq<bool>, n: nat) -> Seq<bool>
    decreases n,
{
    if n == 0 {
        Seq::empty()
    } else {
        spread(left_out, said, (n - 1) as nat).push(
            !left_out[n - 1] && said[without(left_out, left_out, (n - 1) as nat).len() as int],
        )
    }
}

proof fn lemma_spread<M, U: Fn(&M) -> u64>(
    duration: U,
    kfs: Seq<Keyframe>,
    order: Seq<usize>,
    factors: Seq<ImuFactor<M>>,
    left_out: Seq<bool>,
    said: Seq<bool>,
    n: nat,
)
    requires
        n <= factors.len(),
        leaves_out_skipped(duration, kfs, order, factors, left_out),
        without(factors, left_out, n).len() <= said.len(),
        forall|g: int|
            0 <= g < without(factors, left_out, n).len() && is_inside(
                kfs,
                order,
                without(factors, left_out, n)[g],
            ) ==> tells_duration(
                duration,
                without(factors, left_out, n)[g].preintegrated,
                #[trigger] said[g],
            ),
    ensures
        spread(left_out, said, n).len() == n,
        without(left_out, left_out, n).len() == without(factors, left_out, n).len(),
        without(spread(left_out, said, n), left_out, n) == said.take(
            without(factors, left_out, n).len() as int,
        ),
        forall|f: int|
            0 <= f < n && is_inside(kfs, order, factors[f]) ==> tells_duration(
                duration,
                factors[f].preintegrated,
                #[trigger] spread(left_out, said, n)[f],
            ),
        forall|f: int| 0 <= f < n && left_out[f] ==> !#[trigger] spread(left_out, said, n)[f],
    decreases n,
{
    let all = spread(left_out, said, n);
    if n == 0 {
        assert(without(all, left_out, n) =~= said.take(0));
    } else {
        let m = (n - 1) as nat;
        let fewer = without(factors, left_out, m);
        assert forall|g: int|
            0 <= g < fewer.len() && is_inside(kfs, order, fewer[g]) implies tells_duration(
            duration,
            fewer[g].preintegrated,
            #[trigger] said[g],
        ) by {
            assert(without(factors, left_out, n)[g] == fewer[g]);
        }
        lemma_spread(duration, kfs, order, factors, left_out, said, m);
        let before = spread(left_out, said, m);
        lemma_without_agrees(all, before, left_out, m);
        if left_out[n - 1] {
            assert(is_skipped(duration, kfs, order, factors[n - 1]));
        } else {
            assert(without(factors, left_out, n)[fewer.len() as int] == factors[n - 1]);
            assert(said.take(fewer.len() as int).push(said[fewer.len() as int]) =~= said.take(
                fewer.len() as int + 1,
            ));
        }
        assert forall|f: int|
            0 <= f < n && is_inside(kfs, order, factors[f]) implies tells_duration(
            duration,
            factors[f].preintegrated,
            #[trigger] all[f],
        ) by {
            if f < m {
                assert(all[f] == before[f]);
            }
        }
        assert forall|f: int| 0 <= f < n && left_out[f] implies !#[trigger] all[f] by {
            if f < m {
                assert(all[f] == before[f]);
            }
        }
    }
}

proof fn lemma_without_agrees<A>(a: Seq<A>, b: Seq<A>, left_out: Seq<bool>, n: nat)
    requires
        forall|i: int| 0 <= i < n ==> #[trigger] a[i] == b[i],
    ensures
        without(a, left_out, n) == without(b, left_out, n),
    decreases n,
{
    if n > 0 {
        lemma_without_agrees(a, b, left_out, (n - 1) as nat);
        assert(a[n - 1] == b[n - 1]);
    }
}

proof fn lemma_told_without<M, U: Fn(&M) -> u64>(
    duration: U,
    kfs: Seq<Keyframe>,
    order: Seq<usize>,
    factors: Seq<ImuFactor<M>>,
    usable: Seq<bool>,
    left_out: Seq<bool>,
    n: nat,
)
    requires
        n <= factors.len(),
        tells_usable(duration, kfs, order, factors, usable),
    ensures
        without(factors, left_out, n).len() == without(usable, left_out, n).len(),
        forall|g: int|
            0 <= g < without(factors, left_out, n).len() && is_inside(
                kfs,
                order,
                without(factors, left_out, n)[g],
            ) ==> tells_duration(
                duration,
                without(factors, left_out, n)[g].preintegrated,
                #[trigger] without(usable, left_out, n)[g],
            ),
    decreases n,
{
    if n > 0 {
        let m = (n - 1) as nat;
        lemma_told_without(duration, kfs, order, factors, usable, left_out, m);
        let said = without(usable, left_out, n);
        assert forall|g: int|
            0 <= g < without(factors, left_out, n).len() && is_inside(
                kfs,
                order,
                without(factors, left_out, n)[g],
            ) implies tells_duration(
            duration,
            without(factors, left_out, n)[g].preintegrated,
            #[trigger] said[g],
        ) by {
            if g < without(factors, left_out, m).len() {
                assert(said[g] == without(usable, left_out, m)[g]);
            } else {
                assert(said[g] == usable[n - 1]);
            }
        }
    }
}

/// Factors that are skipped leave no trace in the list of edges: where some of them are left
/// out, the same edges take part.
pub proof fn lemma_skipped_factors_give_no_edge<M, U: Fn(&M) -> u64>(
    duration: U,
    kfs: Seq<Keyframe>,
    order: Seq<usize>,
    factors: Seq<ImuFactor<M>>,
    left_out: Seq<bool>,
    edges: Seq<InitEdge<M>>,
)
    requires
        leaves_out_skipped(duration, kfs, order, factors, left_out),
    ensures
        is_edge_list(duration, kfs, order, factors, edges) <==> is_edge_list(
            duration,
            kfs,
            order,
            without(factors, left_out, factors.len()),
            edges,
        ),
{
    let n = factors.len();
    let fewer = without(factors, left_out, n);
    if is_edge_list(duration, kfs, order, factors, edges) {
        let usable = choose|usable: Seq<bool>| #[trigger]
            tells_usable(duration, kfs, order, factors, usable) && edges == edges_of(
                kfs,
                order,
                factors,
                usable,
                n,
            );
        assert forall|f: int| 0 <= f < n && #[trigger] left_out[f] implies !is_inside(
            kfs,
            order,
            factors[f],
        ) || !usable[f] by {
            assert(is_skipped(duration, kfs, order, factors[f]));
            if is_inside(kfs, order, factors[f]) {
                assert(tells_duration(duration, factors[f].preintegrated, usable[f]));
            }
        }
        lemma_edges_without(kfs, order, factors, usable, left_out, n);
        lemma_told_without(duration, kfs, order, factors, usable, left_out, n);
        assert(tells_usable(duration, kfs, order, fewer, without(usable, left_out, n)));
    }
    if is_edge_list(duration, kfs, order, fewer, edges) {
        let said = choose|said: Seq<bool>| #[trigger]
            tells_usable(duration, kfs, order, fewer, said) && edges == edges_of(
                kfs,
                order,
                fewer,
                said,
                fewer.len(),
            );
        lemma_spread(duration, kfs, order, factors, left_out, said, n);
        let usable = spread(left_out, said, n);
        assert(said.take(fewer.len() as int) =~= said);
        assert forall|f: int| 0 <= f < n && #[trigger] left_out[f] implies !usable[f] by {}
        lemma_edges_without(kfs, order, factors, usable, left_out, n);
        assert(tells_usable(duration, kfs, order, factors, usable));
    }
}

/// The factors that take part.
fn collect_edges<M: Copy, U: Fn(&M) -> u64>(
    duration: &U,
    kfs: &[Keyframe],
    order: &Vec<usize>,
    factors: &[ImuFactor<M>],
) -> (edges: Vec<InitEdge<M>>)
    requires
        forall|m: &M| call_requires(*duration, (m,)),
        forall|a: int| 0 <= a < order@.len() ==> (#[trigger] order@[a]) < kfs@.len(),
    ensures
        is_edge_list(*duration, kfs@, order@, factors@, edges@),
        forall|e: int|
            0 <= e < edges@.len() ==> (#[trigger] edges@[e]).from < order@.len() && edges@[e].to
                < order@.len(),
        edges@.len() <= factors@.len(),
{
    let mut edges: Vec<InitEdge<M>> = Vec::new();
    let ghost mut usable: Seq<bool> = Seq::new(factors@.len(), |f: int| false);
    let n_order: usize = order.len();
    let mut f: usize = 0;
    while f < factors.len()
        invariant
            f <= factors@.len(),
            n_order == order@.len(),
            forall|m: &M| call_requires(*duration, (m,)),
            forall|a: int| 0 <= a < order@.len() ==> (#[trigger] order@[a]) < kfs@.len(),
            usable.len() == factors@.len(),
            forall|g: int|
                0 <= g < f && is_inside(kfs@, order@, factors@[g]) ==> tells_duration(
                    *duration,
                    factors@[g].preintegrated,
                    #[trigger] usable[g],
                ),
            edges@ == edges_of(kfs@, order@, factors@, usable, f as nat),
        decreases factors@.len() - f,
    {
        let ghost usable0 = usable;
        let from = find_local(kfs, order, factors[f].prev_kf_idx);
        let to = find_local(kfs, order, factors[f].curr_kf_idx);
        if let (Some(i), Some(j)) = (from, to) {
            let time: u64 = duration(&factors[f].preintegrated);
            let said = !is_at_least(0, time);
            assert(call_ensures(*duration, (&factors@[f as int].preintegrated,), time));
            proof {
                usable = usable0.update(f as int, said);
                lemma_edges_agree(kfs@, order@, factors@, usable, usable0, f as nat);
            }
            if said {
                edges.push(InitEdge { preintegrated: factors[f].preintegrated, from: i, to: j });
            }
        }
        proof {
            assert forall|g: int|
                0 <= g < f + 1 && is_inside(kfs@, order@, factors@[g]) implies tells_duration(
                *duration,
                factors@[g].preintegrated,
                #[trigger] usable[g],
            ) by {
                if g < f {
                    assert(usable[g] == usable0[g]);
                }
            }
        }
        f += 1;
    }
    proof {
        lemma_edges_inside(kfs@, order@, factors@, usable, factors@.len());
        assert(tells_usable(*duration, kfs@, order@, factors@, usable));
        assert forall|e: int| 0 <= e < edges@.len() implies (#[trigger] edges@[e]).from
            < order@.len() && edges@[e].to < order@.len() by {
            let edge = edges_of(kfs@, order@, factors@, usable, factors@.len())[e];
            assert(is_edge_of(kfs@, order@, factors@, factors@.len(), edge));
        }
    }
    edges
}

/// The frame carries no stereo depth: the scale is unknown.
pub open spec fn is_monocular(frame: Frame) -> bool {
    frame.stereo@.len() == 0
}

/// The factors that end in the window, by index.
pub open spec fn spanning_of<M>(factors: Seq<ImuFactor<M>>, start_idx: usize) -> Seq<usize> {
    indices_where(factors.len(), |f: int| factors[f].curr_kf_idx >= start_idx)
}

/// The camera has moved at least so far, by its bits, from one world-to-camera pose to the
/// other.
pub open spec fn has_moved(first: Pose3d, last: Pose3d, min_motion: u64) -> bool {
    at_least(
        length_of(
            vector_difference(
                translation_of(inverse_pose(last)),
                translation_of(inverse_pose(first)),
            ),
        ),
        number(min_motion),
    )
}

/// `is_ready` is the judgement on a window. `enough_time` tells whether the factors, by index,
/// span enough time; more is asked where the scale is unknown.
pub open spec fn is_readiness<M, D>(
    kfs: Seq<Keyframe>,
    factors: Seq<ImuFactor<M>>,
    start_idx: Option<usize>,
    min_keyframes: usize,
    min_motion: u64,
    enough_time: D,
    is_ready: bool,
) -> bool where D: Fn(&Vec<usize>, bool) -> bool {
    match start_idx {
        None => !is_ready,
        Some(start) => {
            let window = window_of(kfs, start);
            if window.len() < min_keyframes {
                !is_ready
            } else {
                let first = kfs[window.first() as int].frame;
                let last = kfs[window.last() as int].frame;
                exists|spanning: Vec<usize>, long: bool|
                    {
                        &&& spanning@ == spanning_of(factors, start)
                        &&& #[trigger] call_ensures(
                            enough_time,
                            (&spanning, is_monocular(first)),
                            long,
                        )
                        &&& is_ready == (long && has_moved(
                            first.pose_world_to_cam,
                            last.pose_world_to_cam,
                            min_motion,
                        ))
                    }
            }
        },
    }
}

/// Where the velocities to start from come from.
pub struct VelocitySeeds<C, V> {
    /// The current velocity of a keyframe of the map.
    pub current: C,
    /// The mean velocity of the body over an edge between two keyframes of the map.
    pub mean: V,
}

/// `velocities` are those to start from.
pub open spec fn is_seed<M, C, V>(
    already_initialized: bool,
    window: Seq<usize>,
    edges: Seq<InitEdge<M>>,
    seeds: VelocitySeeds<C, V>,
    at_rest: Vec3F64,
    velocities: Seq<Vec3F64>,
) -> bool where
    C: Fn(usize) -> Vec3F64,
    V: Fn(&InitEdge<M>, usize, usize) -> Vec3F64,
 {
    if already_initialized {
        &&& velocities.len() == window.len()
        &&& forall|i: int|
            0 <= i < window.len() ==> call_ensures(
                seeds.current,
                (window[i],),
                #[trigger] velocities[i],
            )
    } else {
        exists|found: Seq<Vec3F64>|
            {
                &&& found.len() == edges.len()
                &&& forall|e: int|
                    0 <= e < edges.len() ==> call_ensures(
                        seeds.mean,
                        (
                            &edges[e],
                            window[edges[e].from as int],
                            window[edges[e].to as int],
                        ),
                        #[trigger] found[e],
                    )
                &&& velocities == #[trigger] seeded(
                    edges,
                    found,
                    all_at_rest(window.len(), at_rest),
                    edges.len(),
                )
            }
    }
}

/// `problem` is what is solved for.
pub open spec fn is_problem<M, U, C, V>(
    map: SlamMap,
    factors: Seq<ImuFactor<M>>,
    start_idx: usize,
    already_initialized: bool,
    duration: U,
    seeds: VelocitySeeds<C, V>,
    at_rest: Vec3F64,
    problem: InitProblem<M>,
) -> bool where
    U: Fn(&M) -> u64,
    C: Fn(usize) -> Vec3F64,
    V: Fn(&InitEdge<M>, usize, usize) -> Vec3F64,
 {
    let window = problem.window@;
    &&& is_window_order(map.kfs(), start_idx, window)
    &&& is_edge_list(duration, map.kfs(), window, factors, problem.edges@)
    &&& is_seed(
        already_initialized,
        window,
        problem.edges@,
        seeds,
        at_rest,
        problem.velocities@,
    )
    &&& problem.is_mono == (window.len() == 0 || is_monocular(map.kfs()[window[0] as int].frame))
}

/// `found` is what initialization comes to: nothing without the pose of the IMU, with too
/// few keyframes, without a factor that takes part, or where the solution is not found or
/// not sane.
pub open spec fn is_initialization<M, U, C, V, O>(
    map: SlamMap,
    factors: Seq<ImuFactor<M>>,
    imu_t_bc: Option<Pose3d>,
    start_idx: usize,
    min_keyframes: usize,
    already_initialized: bool,
    duration: U,
    seeds: VelocitySeeds<C, V>,
    at_rest: Vec3F64,
    optimize: O,
    found: Option<ImuInitResult>,
) -> bool where
    U: Fn(&M) -> u64,
    C: Fn(usize) -> Vec3F64,
    V: Fn(&InitEdge<M>, usize, usize) -> Vec3F64,
    O: Fn(&InitProblem<M>, &Pose3d) -> Option<ImuInitResult>,
 {
    if imu_t_bc is None {
        found is None
    } else {
        exists|order: Seq<usize>|
            {
                &&& #[trigger] is_window_order(map.kfs(), start_idx, order)
                &&& if order.len() < min_keyframes {
                    found is None
                } else {
                    exists|problem: InitProblem<M>|
                        {
                            &&& problem.window@ == order
                            &&& #[trigger] is_problem(
                                map,
                                factors,
                                start_idx,
                                already_initialized,
                                duration,
                                seeds,
                                at_rest,
                                problem,
                            )
                            &&& if problem.edges@.len() == 0 {
                                found is None
                            } else {
                                is_solution(problem, imu_t_bc->0, optimize, found)
                            }
                        }
                }
            }
    }
}

/// The scale is a number that is not tiny, and both biases are finite.
pub open spec fn is_sane(init: ImuInitResult) -> bool {
    &&& is_finite(number(init.scale))
    &&& at_least(number(init.scale), number(MIN_SCALE))
    &&& is_finite(length_of(init.bias.gyro))
    &&& is_finite(length_of(init.bias.accel))
}

/// The solution at the scale that is known, where it is.
pub open spec fn at_known_scale(solution: ImuInitResult, is_mono: bool) -> ImuInitResult {
    if is_mono {
        solution
    } else {
        ImuInitResult { scale: UNIT_SCALE, ..solution }
    }
}

/// `found` is the solution of the problem, where there is one and it is sane.
pub open spec fn is_solution<M, O>(
    problem: InitProblem<M>,
    imu_t_bc: Pose3d,
    optimize: O,
    found: Option<ImuInitResult>,
) -> bool where O: Fn(&InitProblem<M>, &Pose3d) -> Option<ImuInitResult> {
    exists|solved: Option<ImuInitResult>|
        {
            &&& #[trigger] call_ensures(optimize, (&problem, &imu_t_bc), solved)
            &&& found == match solved {
                None => None,
                Some(solution) => if is_sane(at_known_scale(solution, problem.is_mono)) {
                    Some(at_known_scale(solution, problem.is_mono))
                } else {
                    None
                },
            }
        }
}

/// The solution at the scale that is known, where it is, if it is sane.
pub fn accept_solution(solution: ImuInitResult, is_mono: bool) -> (found: Option<ImuInitResult>)
    ensures
        found == if is_sane(at_known_scale(solution, is_mono)) {
            Some(at_known_scale(solution, is_mono))
        } else {
            None
        },
{
    let scale: u64 = if is_mono {
        solution.scale
    } else {
        UNIT_SCALE
    };
    if has_finite(scale) && is_at_least(scale, MIN_SCALE) && has_finite(
        length_bits(&solution.bias.gyro),
    ) && has_finite(length_bits(&solution.bias.accel)) {
        Some(
            ImuInitResult {
                scale,
                gravity_world: solution.gravity_world,
                velocities_world: solution.velocities_world,
                bias: solution.bias,
            },
        )
    } else {
        None
    }
}

/// An initialization is sane, its scale is one where it is known, and where the solver gives a
/// velocity for each keyframe of a problem, it has one for each keyframe of the window.
pub proof fn lemma_initialization_is_sane<M, U, C, V, O>(
    map: SlamMap,
    factors: Seq<ImuFactor<M>>,
    imu_t_bc: Option<Pose3d>,
    start_idx: usize,
    min_keyframes: usize,
    already_initialized: bool,
    duration: U,
    seeds: VelocitySeeds<C, V>,
    at_rest: Vec3F64,
    optimize: O,
    order: Seq<usize>,
    found: ImuInitResult,
) where
    U: Fn(&M) -> u64,
    C: Fn(usize) -> Vec3F64,
    V: Fn(&InitEdge<M>, usize, usize) -> Vec3F64,
    O: Fn(&InitProblem<M>, &Pose3d) -> Option<ImuInitResult>,

    requires
        map.kfs().len() <= usize::MAX,
        is_window_order(map.kfs(), start_idx, order),
        is_initialization(
            map,
            factors,
            imu_t_bc,
            start_idx,
            min_keyframes,
            already_initialized,
            duration,
            seeds,
            at_rest,
            optimize,
            Some(found),
        ),
    ensures
        is_sane(found),
        order.len() >= min_keyframes,
        order.len() > 0 && !is_monocular(map.kfs()[order[0] as int].frame) ==> found.scale
            == UNIT_SCALE,
        (forall|problem: InitProblem<M>, pose: Pose3d, solved: Option<ImuInitResult>| #[trigger]
            call_ensures(optimize, (&problem, &pose), solved) && solved is Some
                ==> solved->0.velocities_world@.len() == problem.window@.len())
            ==> found.velocities_world@.len() == order.len(),
{
    let window = choose|window: Seq<usize>|
        {
            &&& #[trigger] is_window_order(map.kfs(), start_idx, window)
            &&& window.len() >= min_keyframes
            &&& exists|problem: InitProblem<M>|
                {
                    &&& problem.window@ == window
                    &&& #[trigger] is_problem(
                        map,
                        factors,
                        start_idx,
                        already_initialized,
                        duration,
                        seeds,
                        at_rest,
                        problem,
                    )
                    &&& is_solution(problem, imu_t_bc->0, optimize, Some(found))
                }
        };
    lemma_window_order_unique(map.kfs(), start_idx, order, window);
}

/// Factors that are skipped leave no trace in the result: where some of them are left out of
/// the factors, the same results are admitted.
pub proof fn lemma_skipped_factors_leave_no_trace<M, U, C, V, O>(
    map: SlamMap,
    factors: Seq<ImuFactor<M>>,
    left_out: Seq<bool>,
    imu_t_bc: Option<Pose3d>,
    start_idx: usize,
    min_keyframes: usize,
    already_initialized: bool,
    duration: U,
    seeds: VelocitySeeds<C, V>,
    at_rest: Vec3F64,
    optimize: O,
    order: Seq<usize>,
    found: Option<ImuInitResult>,
) where
    U: Fn(&M) -> u64,
    C: Fn(usize) -> Vec3F64,
    V: Fn(&InitEdge<M>, usize, usize) -> Vec3F64,
    O: Fn(&InitProblem<M>, &Pose3d) -> Option<ImuInitResult>,

    requires
        map.kfs().len() <= usize::MAX,
        is_window_order(map.kfs(), start_idx, order),
        leaves_out_skipped(duration, map.kfs(), order, factors, left_out),
    ensures
        is_initialization(
            map,
            factors,
            imu_t_bc,
            start_idx,
            min_keyframes,
            already_initialized,
            duration,
            seeds,
            at_rest,
            optimize,
            found,
        ) <==> is_initialization(
            map,
            without(factors, left_out, factors.len()),
            imu_t_bc,
            start_idx,
            min_keyframes,
            already_initialized,
            duration,
            seeds,
            at_rest,
            optimize,
            found,
        ),
{
    let fewer = without(factors, left_out, factors.len());
    assert forall|window: Seq<usize>| #[trigger]
        is_window_order(map.kfs(), start_idx, window) implies window == order by {
        lemma_window_order_unique(map.kfs(), start_idx, window, order);
    }
    assert forall|problem: InitProblem<M>|
        #![trigger is_problem(
            map,
            factors,
            start_idx,
            already_initialized,
            duration,
            seeds,
            at_rest,
            problem,
        )]
        #![trigger is_problem(
            map,
            fewer,
            start_idx,
            already_initialized,
            duration,
            seeds,
            at_rest,
            problem,
        )]
        is_problem(
            map,
            factors,
            start_idx,
            already_initialized,
            duration,
            seeds,
            at_rest,
            problem,
        ) == is_problem(
            map,
            fewer,
            start_idx,
            already_initialized,
            duration,
            seeds,
            at_rest,
            problem,
        ) by {
        if is_window_order(map.kfs(), start_idx, problem.window@) {
            lemma_skipped_factors_give_no_edge(
                duration,
                map.kfs(),
                order,
                factors,
                left_out,
                problem.edges@,
            );
        }
    }
}

/// The keyframes of a window have one order.
pub proof fn lemma_window_order_unique(
    kfs: Seq<Keyframe>,
    start_idx: usize,
    a: Seq<usize>,
    b: Seq<usize>,
)
    requires
        is_window_order(kfs, start_idx, a),
        is_window_order(kfs, start_idx, b),
        kfs.len() <= usize::MAX,
    ensures
        a == b,
{
    lemma_window_prefix(kfs, start_idx, a, b, a.len());
    lemma_window_prefix(kfs, start_idx, b, a, b.len());
    assert(a =~= b);
}

proof fn lemma_window_prefix(
    kfs: Seq<Keyframe>,
    start_idx: usize,
    a: Seq<usize>,
    b: Seq<usize>,
    n: nat,
)
    requires
        is_window_order(kfs, start_idx, a),
        is_window_order(kfs, start_idx, b),
        kfs.len() <= usize::MAX,
        n <= a.len(),
    ensures
        n <= b.len(),
        forall|i: int| 0 <= i < n ==> a[i] == b[i],
    decreases n,
{
    if n > 0 {
        let m = n - 1;
        lemma_window_prefix(kfs, start_idx, a, b, m as nat);
        assert(in_window(kfs, start_idx, a[m] as int));
        assert(b.contains(a[m]));
        let j = choose|j: int| 0 <= j < b.len() && b[j] == a[m];
        if j < m {
            assert(comes_first(kfs, a[j], a[m]));
        }
        assert(in_window(kfs, start_idx, b[m] as int));
        assert(a.contains(b[m]));
        let h = choose|h: int| 0 <= h < a.len() && a[h] == b[m];
        if h < m {
            assert(comes_first(kfs, b[h], b[m]));
        }
        if j > m {
            assert(comes_first(kfs, b[m], b[j]));
            if h > m {
                assert(comes_first(kfs, a[m], a[h]));
            }
        }
    }
}

/// Positions of the keyframes of the window, in the order of the map.
fn window_positions(kfs: &[Keyframe], start_idx: usize) -> (window: Vec<usize>)
    ensures
        window@ == window_of(kfs@, start_idx),
{
    let mut window: Vec<usize> = Vec::new();
    let mut p: usize = 0;
    while p < kfs.len()
        invariant
            p <= kfs@.len(),
            window@ == indices_where(p as nat, |p: int| in_window(kfs@, start_idx, p)),
        decreases kfs@.len() - p,
    {
        if kfs[p].frame.idx >= start_idx {
            window.push(p);
        }
        p += 1;
    }
    window
}

/// The factors that end in the window.
fn spanning_factors<M>(factors: &[ImuFactor<M>], start_idx: usize) -> (spanning: Vec<usize>)
    ensures
        spanning@ == spanning_of(factors@, start_idx),
{
    let mut spanning: Vec<usize> = Vec::new();
    let mut f: usize = 0;
    while f < factors.len()
        invariant
            f <= factors@.len(),
            spanning@ == indices_where(
                f as nat,
                |f: int| factors@[f].curr_kf_idx >= start_idx,
            ),
        decreases factors@.len() - f,
    {
        if factors[f].curr_kf_idx >= start_idx {
            spanning.push(f);
        }
        f += 1;
    }
    spanning
}

/// Velocities to start from, from the factors that take part.
fn seed_from_edges<M, C, V>(
    window: &Vec<usize>,
    edges: &Vec<InitEdge<M>>,
    seeds: &VelocitySeeds<C, V>,
    at_rest: Vec3F64,
) -> (velocities: Vec<Vec3F64>) where
    C: Fn(usize) -> Vec3F64,
    V: Fn(&InitEdge<M>, usize, usize) -> Vec3F64,

    requires
        forall|edge: &InitEdge<M>, i: usize, j: usize| call_requires(seeds.mean, (edge, i, j)),
        forall|e: int|
            0 <= e < edges@.len() ==> (#[trigger] edges@[e]).from < window@.len() && edges@[e].to
                < window@.len(),
    ensures
        is_seed(false, window@, edges@, *seeds, at_rest, velocities@),
{
    let mut velocities: Vec<Vec3F64> = Vec::new();
    let mut i: usize = 0;
    while i < window.len()
        invariant
            i <= window@.len(),
            velocities@ == all_at_rest(i as nat, at_rest),
        decreases window@.len() - i,
    {
        velocities.push(at_rest);
        i += 1;
        assert(velocities@ =~= all_at_rest(i as nat, at_rest));
    }
    let ghost start = velocities@;
    let ghost mut found: Seq<Vec3F64> = Seq::empty();
    let mut e: usize = 0;
    while e < edges.len()
        invariant
            e <= edges@.len(),
            forall|edge: &InitEdge<M>, i: usize, j: usize| call_requires(seeds.mean, (edge, i, j)),
            forall|e: int|
                0 <= e < edges@.len() ==> (#[trigger] edges@[e]).from < window@.len()
                    && edges@[e].to < window@.len(),
            velocities@.len() == window@.len(),
            found.len() == e,
            forall|h: int|
                0 <= h < e ==> call_ensures(
                    seeds.mean,
                    (&edges@[h], window@[edges@[h].from as int], window@[edges@[h].to as int]),
                    #[trigger] found[h],
                ),
            velocities@ == seeded(edges@, found, start, e as nat),
        decreases edges@.len() - e,
    {
        let edge = &edges[e];
        let ghost found0 = found;
        let velocity = (seeds.mean)(edge, window[edge.from], window[edge.to]);
        proof {
            found = found0.push(velocity);
            lemma_seeded_prefix(edges@, found0, velocity, start, e as nat);
            assert forall|h: int| 0 <= h < e + 1 implies call_ensures(
                seeds.mean,
                (&edges@[h], window@[edges@[h].from as int], window@[edges@[h].to as int]),
                #[trigger] found[h],
            ) by {
                if h < e {
                    assert(found[h] == found0[h]);
                }
            }
        }
        velocities.set(edge.from, velocity);
        velocities.set(edge.to, velocity);
        e += 1;
    }
    assert(start == all_at_rest(window@.len(), at_rest));
    assert(velocities@ == seeded(
        edges@,
        found,
        all_at_rest(window@.len(), at_rest),
        edges@.len(),
    ));
    velocities
}

proof fn lemma_seeded_prefix<M>(
    edges: Seq<InitEdge<M>>,
    found: Seq<Vec3F64>,
    more: Vec3F64,
    start: Seq<Vec3F64>,
    n: nat,
)
    requires
        n <= found.len(),
    ensures
        seeded(edges, found.push(more), start, n) == seeded(edges, found, start, n),
    decreases n,
{
    if n > 0 {
        lemma_seeded_prefix(edges, found, more, start, (n - 1) as nat);
        assert(found.push(more)[n - 1] == found[n - 1]);
    }
}

/// Velocities to start from, from the keyframes.
fn seed_from_keyframes<M, C, V>(
    window: &Vec<usize>,
    edges: &Vec<InitEdge<M>>,
    seeds: &VelocitySeeds<C, V>,
    at_rest: Vec3F64,
) -> (velocities: Vec<Vec3F64>) where
    C: Fn(usize) -> Vec3F64,
    V: Fn(&InitEdge<M>, usize, usize) -> Vec3F64,

    requires
        forall|p: usize| call_requires(seeds.current, (p,)),
    ensures
        is_seed(true, window@, edges@, *seeds, at_rest, velocities@),
{
    let mut velocities: Vec<Vec3F64> = Vec::new();
    let mut i: usize = 0;
    while i < window.len()
        invariant
            i <= window@.len(),
            forall|p: usize| call_requires(seeds.current, (p,)),
            velocities@.len() == i,
            forall|h: int|
                0 <= h < i ==> call_ensures(
                    seeds.current,
                    (window@[h],),
                    #[trigger] velocities@[h],
                ),
        decreases window@.len() - i,
    {
        let velocity = (seeds.current)(window[i]);
        velocities.push(velocity);
        i += 1;
    }
    velocities
}

impl<T> ImuInitializer<T> {
    pub fn new(config: ImuInitConfig<T>) -> (initializer: ImuInitializer<T>)
        ensures
            initializer.config == config,
    {
        ImuInitializer { config }
    }

    /// Whether the keyframes from `start_idx` on are enough to initialize from: there are
    /// enough of them, the IMU factors span enough time, and the camera has moved enough.
    pub fn ready<M, D>(
        &self,
        map: &SlamMap,
        factors: &[ImuFactor<M>],
        start_idx: Option<usize>,
        enough_time: &D,
    ) -> (is_ready: bool) where D: Fn(&Vec<usize>, bool) -> bool

        requires
            start_idx is Some ==> self.config.min_keyframes > 0 || window_of(
                map.kfs(),
                start_idx->0,
            ).len() > 0,
            forall|spanning: &Vec<usize>, is_mono: bool|
                call_requires(*enough_time, (spanning, is_mono)),
        ensures
            is_readiness(
                map.kfs(),
                factors@,
                start_idx,
                self.config.min_keyframes,
                self.config.min_motion,
                *enough_time,
                is_ready,
            ),
    {
        let start: usize = match start_idx {
            None => {
                return false;
            },
            Some(start) => start,
        };
        let kfs = map.keyframes();
        let n_kfs: usize = kfs.len();
        let window = window_positions(kfs, start);
        if window.len() < self.config.min_keyframes {
            return false;
        }
        proof {
            crate::selection::lemma_indices_where(
                n_kfs as nat,
                |p: int| in_window(kfs@, start, p),
            );
        }
        let first = &kfs[window[0]].frame;
        let last = &kfs[window[window.len() - 1]].frame;
        let spanning = spanning_factors(factors, start);
        let is_mono = !first.is_stereo();
        assert(*first == map.kfs()[window@.first() as int].frame);
        assert(*last == map.kfs()[window@.last() as int].frame);
        let long = enough_time(&spanning, is_mono);
        assert(call_ensures(*enough_time, (&spanning, is_monocular(*first)), long));
        if !long {
            return false;
        }
        let first_inv = invert(&first.pose_world_to_cam);
        let last_inv = invert(&last.pose_world_to_cam);
        let moved = subtract_vectors(&translation(&last_inv), &translation(&first_inv));
        is_at_least(length_bits(&moved), self.config.min_motion)
    }

    /// One joint solve for scale, gravity, velocities and biases over the keyframes from
    /// `start_idx` on.
    ///
    /// On the first call velocities are derived from the visual trajectory; on later calls
    /// the map is metric already, and they are those of the keyframes. Factors that cross
    /// the window boundary or last no time are skipped, those over the time, by its bits, that
    /// `duration` gives. `optimize` gives a scale, which counts where it is unknown, and the
    /// result is given up where the scale or a bias is not sane.
    pub fn try_initialize<M: Copy, U, C, V, O>(
        &self,
        map: &SlamMap,
        factors: &[ImuFactor<M>],
        imu_t_bc: Option<Pose3d>,
        start_idx: usize,
        already_initialized: bool,
        duration: &U,
        seeds: &VelocitySeeds<C, V>,
        at_rest: Vec3F64,
        optimize: &O,
    ) -> (found: Option<ImuInitResult>) where
        U: Fn(&M) -> u64,
        C: Fn(usize) -> Vec3F64,
        V: Fn(&InitEdge<M>, usize, usize) -> Vec3F64,
        O: Fn(&InitProblem<M>, &Pose3d) -> Option<ImuInitResult>,

        requires
            forall|m: &M| call_requires(*duration, (m,)),
            forall|p: usize| call_requires(seeds.current, (p,)),
            forall|edge: &InitEdge<M>, i: usize, j: usize| call_requires(seeds.mean, (edge, i, j)),
            forall|problem: &InitProblem<M>, pose: &Pose3d|
                call_requires(*optimize, (problem, pose)),
        ensures
            is_initialization(
                *map,
                factors@,
                imu_t_bc,
                start_idx,
                self.config.min_keyframes,
                already_initialized,
                *duration,
                *seeds,
                at_rest,
                *optimize,
                found,
            ),
    {
        let pose = match imu_t_bc {
            None => {
                return None;
            },
            Some(pose) => pose,
        };
        let kfs = map.keyframes();
        let window = window_order(kfs, start_idx);
        let ghost order = window@;
        assert(is_window_order(map.kfs(), start_idx, order));
        if window.len() < self.config.min_keyframes {
            return None;
        }
        let is_mono = window.len() == 0 || !kfs[window[0]].frame.is_stereo();
        let edges = collect_edges(duration, kfs, &window, factors);
        let velocities = if already_initialized {
            seed_from_keyframes(&window, &edges, seeds, at_rest)
        } else {
            seed_from_edges(&window, &edges, seeds, at_rest)
        };
        let problem = InitProblem { window, edges, velocities, is_mono };
        assert(is_problem(
            *map,
            factors@,
            start_idx,
            already_initialized,
            *duration,
            *seeds,
            at_rest,
            problem,
        ));
        if problem.edges.len() == 0 {
            return None;
        }
        let solved = optimize(&problem, &pose);
        let ghost said = solved;
        assert(call_ensures(*optimize, (&problem, &pose), said));
        let found = match solved {
            None => None,
            Some(solution) => accept_solution(solution, problem.is_mono),
        };
        assert(is_solution(problem, pose, *optimize, found));
        found
    }
}

/// How the map is brought to metric scale and aligned with gravity.
pub struct Alignment<P, X, V> {
    /// A world-to-camera pose in the new world frame.
    pub pose: P,
    /// A world point in the new world frame.
    pub point: X,
    /// A velocity in the new world frame.
    pub velocity: V,
    /// Gravity in the new world frame.
    pub gravity: Vec3F64,
}

/// How many keyframes of the window come before keyframe `k` of the map.
pub open spec fn window_rank(kfs: Seq<Keyframe>, start_idx: usize, k: int) -> nat {
    indices_where(k as nat, |p: int| in_window(kfs, start_idx, p)).len()
}

/// The keyframe in the new world frame.
pub open spec fn is_aligned_keyframe<P: Fn(&Pose3d) -> Pose3d>(
    align: P,
    before: Keyframe,
    after: Keyframe,
) -> bool {
    let pose = after.frame.pose_world_to_cam;
    &&& call_ensures(align, (&before.frame.pose_world_to_cam,), pose)
    &&& after == (Keyframe {
        frame: (Frame { pose_world_to_cam: pose, ..before.frame }),
        ..before
    })
}

/// The map point in the new world frame.
pub open spec fn is_aligned_point<X: Fn(&Vec3F64) -> Vec3F64>(
    align: X,
    before: MapPoint,
    after: MapPoint,
) -> bool {
    &&& call_ensures(align, (&before.position,), after.position)
    &&& after == (MapPoint { position: after.position, ..before })
}

/// The inertial state of keyframe `k` after initialization: the keyframes of the window
/// take the velocities in turn, as far as there are any, and the bias.
pub open spec fn is_assigned<V: Fn(&Vec3F64) -> Vec3F64>(
    kfs: Seq<Keyframe>,
    start_idx: usize,
    align: V,
    init: ImuInitResult,
    k: int,
    before: InertialState,
    after: InertialState,
) -> bool {
    let rank = window_rank(kfs, start_idx, k);
    if in_window(kfs, start_idx, k) && rank < init.velocities_world@.len() {
        &&& call_ensures(
            align,
            (&init.velocities_world@[rank as int],),
            after.velocity_world,
        )
        &&& after.imu_bias == init.bias
    } else {
        after == before
    }
}

/// The state of the system after initialization: it is at the last keyframe of the window.
pub open spec fn initialized_state<T>(
    before: SystemState<T>,
    kfs: Seq<Keyframe>,
    inertial: Seq<InertialState>,
    start_idx: usize,
) -> SystemState<T> {
    let window = window_of(kfs, start_idx);
    if window.len() == 0 {
        SystemState { velocity: None, imu_initialized: true, ..before }
    } else {
        SystemState {
            velocity_world: inertial[window.last() as int].velocity_world,
            pose_world_to_cam: kfs[window.last() as int].frame.pose_world_to_cam,
            velocity: None,
            imu_initialized: true,
            ..before
        }
    }
}

fn align_keyframes<P: Fn(&Pose3d) -> Pose3d>(kfs: &mut Vec<Keyframe>, align: &P)
    requires
        forall|pose: &Pose3d| call_requires(*align, (pose,)),
    ensures
        final(kfs)@.len() == old(kfs)@.len(),
        forall|k: int|
            0 <= k < old(kfs)@.len() ==> is_aligned_keyframe(
                *align,
                old(kfs)@[k],
                #[trigger] final(kfs)@[k],
            ),
{
    let ghost before = kfs@;
    let mut k: usize = 0;
    while k < kfs.len()
        invariant
            k <= kfs@.len(),
            kfs@.len() == before.len(),
            forall|pose: &Pose3d| call_requires(*align, (pose,)),
            forall|h: int|
                0 <= h < k ==> is_aligned_keyframe(*align, before[h], #[trigger] kfs@[h]),
            forall|h: int| k <= h < kfs@.len() ==> #[trigger] kfs@[h] == before[h],
        decreases kfs@.len() - k,
    {
        let pose = align(&kfs[k].frame.pose_world_to_cam);
        kfs[k].frame.pose_world_to_cam = pose;
        assert(is_aligned_keyframe(*align, before[k as int], kfs@[k as int]));
        k += 1;
    }
}

fn align_points<X: Fn(&Vec3F64) -> Vec3F64>(pts: &mut Vec<MapPoint>, align: &X)
    requires
        forall|point: &Vec3F64| call_requires(*align, (point,)),
    ensures
        final(pts)@.len() == old(pts)@.len(),
        forall|i: int|
            0 <= i < old(pts)@.len() ==> is_aligned_point(
                *align,
                old(pts)@[i],
                #[trigger] final(pts)@[i],
            ),
{
    let ghost before = pts@;
    let mut i: usize = 0;
    while i < pts.len()
        invariant
            i <= pts@.len(),
            pts@.len() == before.len(),
            forall|point: &Vec3F64| call_requires(*align, (point,)),
            forall|h: int| 0 <= h < i ==> is_aligned_point(*align, before[h], #[trigger] pts@[h]),
            forall|h: int| i <= h < pts@.len() ==> #[trigger] pts@[h] == before[h],
        decreases pts@.len() - i,
    {
        let mut mp = pts[i];
        mp.position = align(&mp.position);
        pts.set(i, mp);
        assert(is_aligned_point(*align, before[i as int], pts@[i as int]));
        i += 1;
    }
}

fn assign_velocities<V: Fn(&Vec3F64) -> Vec3F64>(
    kfs: &[Keyframe],
    inertial: &mut Vec<InertialState>,
    init: &ImuInitResult,
    start_idx: usize,
    align: &V,
)
    requires
        old(inertial)@.len() == kfs@.len(),
        forall|velocity: &Vec3F64| call_requires(*align, (velocity,)),
    ensures
        final(inertial)@.len() == kfs@.len(),
        forall|k: int|
            0 <= k < kfs@.len() ==> is_assigned(
                kfs@,
                start_idx,
                *align,
                *init,
                k,
                old(inertial)@[k],
                #[trigger] final(inertial)@[k],
            ),
{
    let ghost before = inertial@;
    let ghost inside = |p: int| in_window(kfs@, start_idx, p);
    let n: usize = init.velocities_world.len();
    let mut next: usize = 0;
    let mut k: usize = 0;
    while k < kfs.len()
        invariant
            k <= kfs@.len(),
            inertial@.len() == kfs@.len(),
            before.len() == kfs@.len(),
            n == init.velocities_world@.len(),
            inside == (|p: int| in_window(kfs@, start_idx, p)),
            forall|velocity: &Vec3F64| call_requires(*align, (velocity,)),
            next == window_rank(kfs@, start_idx, k as int),
            next <= k,
            forall|h: int|
                0 <= h < k ==> is_assigned(
                    kfs@,
                    start_idx,
                    *align,
                    *init,
                    h,
                    before[h],
                    #[trigger] inertial@[h],
                ),
            forall|h: int| k <= h < kfs@.len() ==> #[trigger] inertial@[h] == before[h],
        decreases kfs@.len() - k,
    {
        if kfs[k].frame.idx >= start_idx {
            if next < n {
                let velocity_world = align(&init.velocities_world[next]);
                inertial.set(k, InertialState { velocity_world, imu_bias: init.bias });
            }
            next += 1;
        }
        assert(is_assigned(
            kfs@,
            start_idx,
            *align,
            *init,
            k as int,
            before[k as int],
            inertial@[k as int],
        ));
        k += 1;
    }
}

proof fn lemma_window_same(a: Seq<Keyframe>, b: Seq<Keyframe>, start_idx: usize, n: nat)
    requires
        n <= a.len(),
        a.len() == b.len(),
        forall|k: int| 0 <= k < a.len() ==> (#[trigger] a[k]).frame.idx == b[k].frame.idx,
    ensures
        indices_where(n, |p: int| in_window(a, start_idx, p)) == indices_where(
            n,
            |p: int| in_window(b, start_idx, p),
        ),
{
    crate::selection::lemma_indices_where_agree(
        n,
        |p: int| in_window(a, start_idx, p),
        |p: int| in_window(b, start_idx, p),
    );
}

impl<T> ImuInitializer<T> {
    /// Applies an initialization: brings the map to metric scale and aligns it with gravity,
    /// gives the keyframes from `start_idx` on their velocities and the bias, and puts the
    /// system at the last of them, with the bias and the gravity of the new world frame.
    pub fn apply_initialization<D, P, X, V>(
        &self,
        map: &mut SlamMap,
        inertial: &mut Vec<InertialState>,
        state: &mut SystemState<D>,
        imu_bias: &mut ImuBias,
        gravity_world: &mut Vec3F64,
        init: &ImuInitResult,
        start_idx: usize,
        alignment: &Alignment<P, X, V>,
    ) where
        P: Fn(&Pose3d) -> Pose3d,
        X: Fn(&Vec3F64) -> Vec3F64,
        V: Fn(&Vec3F64) -> Vec3F64,

        requires
            old(inertial)@.len() == old(map).kfs().len(),
            forall|pose: &Pose3d| call_requires(alignment.pose, (pose,)),
            forall|point: &Vec3F64| call_requires(alignment.point, (point,)),
            forall|velocity: &Vec3F64| call_requires(alignment.velocity, (velocity,)),
        ensures
            final(map).kfs().len() == old(map).kfs().len(),
            forall|k: int|
                0 <= k < old(map).kfs().len() ==> is_aligned_keyframe(
                    alignment.pose,
                    old(map).kfs()[k],
                    #[trigger] final(map).kfs()[k],
                ),
            final(map).pts().len() == old(map).pts().len(),
            forall|i: int|
                0 <= i < old(map).pts().len() ==> is_aligned_point(
                    alignment.point,
                    old(map).pts()[i],
                    #[trigger] final(map).pts()[i],
                ),
            final(inertial)@.len() == old(inertial)@.len(),
            forall|k: int|
                0 <= k < old(inertial)@.len() ==> is_assigned(
                    old(map).kfs(),
                    start_idx,
                    alignment.velocity,
                    *init,
                    k,
                    old(inertial)@[k],
                    #[trigger] final(inertial)@[k],
                ),
            *final(state) == initialized_state(
                *old(state),
                final(map).kfs(),
                final(inertial)@,
                start_idx,
            ),
            *final(imu_bias) == init.bias,
            *final(gravity_world) == alignment.gravity,
    {
        let ghost kfs0 = map.kfs();
        let ghost inertial0 = inertial@;
        align_keyframes(map.keyframes_mut(), &alignment.pose);
        align_points(map.map_points_mut(), &alignment.point);
        let kfs = map.keyframes();
        assign_velocities(kfs, inertial, init, start_idx, &alignment.velocity);
        proof {
            assert forall|k: int| 0 <= k < kfs0.len() implies (#[trigger] kfs0[k]).frame.idx
                == kfs@[k].frame.idx by {
                assert(is_aligned_keyframe(alignment.pose, kfs0[k], kfs@[k]));
            }
            assert forall|k: int| 0 <= k < inertial0.len() implies is_assigned(
                kfs0,
                start_idx,
                alignment.velocity,
                *init,
                k,
                inertial0[k],
                #[trigger] inertial@[k],
            ) by {
                assert(is_assigned(
                    kfs@,
                    start_idx,
                    alignment.velocity,
                    *init,
                    k,
                    inertial0[k],
                    inertial@[k],
                ));
                lemma_window_same(kfs0, kfs@, start_idx, k as nat);
            }
        }
        let n_kfs: usize = kfs.len();
        let window = window_positions(kfs, start_idx);
        if window.len() > 0 {
            proof {
                crate::selection::lemma_indices_where(
                    n_kfs as nat,
                    |p: int| in_window(kfs@, start_idx, p),
                );
            }
            let last: usize = window[window.len() - 1];
            state.velocity_world = inertial[last].velocity_world;
            state.pose_world_to_cam = kfs[last].frame.pose_world_to_cam;
        }
        state.velocity = None;
        state.imu_initialized = true;
        *gravity_world = alignment.gravity;
        *imu_bias = init.bias;
    }
}

/// Fewest edges from which a gyroscope bias is estimated.
pub const MIN_GYRO_EDGES: usize = 2;

/// Steps of the gyroscope bias estimation.
pub const GYRO_STEPS: usize = 3;

/// The bits of a hundred-millionth: a step no longer than it is the last.
pub const GYRO_TOLERANCE: u64 = 0x3e45_798e_e230_8c3a;

/// The bits of one half: a larger gyroscope bias is not believed.
pub const MAX_GYRO_BIAS: u64 = 0x3fe0_0000_0000_0000;

/// `found` is what at most `left` steps from `bias` come to: a step that fails ends with
/// nothing, and a short one is the last.
pub open spec fn is_stepped<M, P: Fn(&Vec<InitEdge<M>>, &Vec3F64) -> Option<Vec3F64>>(
    step: P,
    edges: Vec<InitEdge<M>>,
    bias: Vec3F64,
    left: nat,
    found: Option<Vec3F64>,
) -> bool
    decreases left,
{
    if left == 0 {
        found == Some(bias)
    } else {
        exists|said: Option<Vec3F64>|
            {
                &&& #[trigger] call_ensures(step, (&edges, &bias), said)
                &&& match said {
                    None => found is None,
                    Some(change) => if above(number(GYRO_TOLERANCE), length_of(change)) {
                        found == Some(vector_sum(bias, change))
                    } else {
                        is_stepped(step, edges, vector_sum(bias, change), (left - 1) as nat, found)
                    },
                }
            }
    }
}

/// The bias is finite and not too large.
pub open spec fn is_plausible(bias: Vec3F64) -> bool {
    is_finite(length_of(bias)) && !above(length_of(bias), number(MAX_GYRO_BIAS))
}

/// Estimates the gyroscope bias from the factors that take part, in a few steps. `step` gives
/// the change that improves an estimate.
pub fn estimate_gyro_bias<M, P>(edges: &Vec<InitEdge<M>>, start: Vec3F64, step: &P) -> (found: Option<
    Vec3F64,
>) where P: Fn(&Vec<InitEdge<M>>, &Vec3F64) -> Option<Vec3F64>
    requires
        forall|edges: &Vec<InitEdge<M>>, bias: &Vec3F64| call_requires(*step, (edges, bias)),
    ensures
        if edges@.len() < MIN_GYRO_EDGES {
            found is None
        } else {
            exists|stepped: Option<Vec3F64>|
                {
                    &&& #[trigger] is_stepped(*step, *edges, start, GYRO_STEPS as nat, stepped)
                    &&& found == match stepped {
                        Some(bias) if is_plausible(bias) => Some(bias),
                        _ => None,
                    }
                }
        },
{
    if edges.len() < MIN_GYRO_EDGES {
        return None;
    }
    let mut bias = start;
    let mut left: usize = GYRO_STEPS;
    while left > 0
        invariant
            left <= GYRO_STEPS,
            forall|edges: &Vec<InitEdge<M>>, bias: &Vec3F64| call_requires(*step, (edges, bias)),
            forall|found: Option<Vec3F64>| #[trigger]
                is_stepped(*step, *edges, bias, left as nat, found) ==> is_stepped(
                    *step,
                    *edges,
                    start,
                    GYRO_STEPS as nat,
                    found,
                ),
            edges@.len() >= MIN_GYRO_EDGES,
        decreases left,
    {
        let ghost bias0 = bias;
        let ghost left0 = left as nat;
        let said = step(edges, &bias);
        let ghost answer = said;
        assert(call_ensures(*step, (edges, &bias0), answer));
        match said {
            None => {
                assert(is_stepped(*step, *edges, bias0, left0, None));
                return None;
            },
            Some(change) => {
                bias = add_vectors(&bias, &change);
                if is_above(GYRO_TOLERANCE, length_bits(&change)) {
                    assert(is_stepped(*step, *edges, bias0, left0, Some(bias)));
                    assert(is_stepped(*step, *edges, bias, 0, Some(bias)));
                    left = 0;
                    assert forall|found: Option<Vec3F64>| #[trigger]
                        is_stepped(*step, *edges, bias, left as nat, found) implies is_stepped(
                        *step,
                        *edges,
                        start,
                        GYRO_STEPS as nat,
                        found,
                    ) by {}
                } else {
                    left -= 1;
                    assert forall|found: Option<Vec3F64>| #[trigger]
                        is_stepped(*step, *edges, bias, left as nat, found) implies is_stepped(
                        *step,
                        *edges,
                        start,
                        GYRO_STEPS as nat,
                        found,
                    ) by {
                        assert((left0 - 1) as nat == left as nat);
                        assert(is_stepped(*step, *edges, bias0, left0, found));
                    }
                }
            },
        }
    }
    assert(is_stepped(*step, *edges, bias, 0, Some(bias)));
    let size: u64 = length_bits(&bias);
    if has_finite(size) && !is_above(size, MAX_GYRO_BIAS) {
        Some(bias)
    } else {
        None
    }
}

/// Columns of the linear system: three per keyframe for its velocity, then gravity, then
/// the accelerometer bias and the scale where they are solved for.
#[derive(Debug, Clone, Copy, PartialEq, Eq)]
pub struct LinearLayout {
    pub n_keyframes: usize,
    /// Gravity is known up to a change in two directions; else it is free in three.
    pub has_gravity_prior: bool,
    pub solves_bias: bool,
    pub solves_scale: bool,
}

impl LinearLayout {
    /// The column numbers can be held.
    pub open spec fn fits(&self) -> bool {
        3 * self.n_keyframes + 7 <= usize::MAX
    }

    /// Column of the velocity of keyframe `kf` along axis `ax`.
    pub open spec fn spec_velocity(&self, kf: int, ax: int) -> int {
        3 * kf + ax
    }

    /// First column of gravity.
    pub open spec fn spec_gravity(&self) -> int {
        3 * self.n_keyframes
    }

    /// First column after gravity: that of the accelerometer bias.
    pub open spec fn spec_bias(&self) -> int {
        self.spec_gravity() + (if self.has_gravity_prior {
            2int
        } else {
            3int
        })
    }

    /// First column after the accelerometer bias: that of the scale.
    pub open spec fn spec_scale(&self) -> int {
        self.spec_bias() + (if self.solves_bias {
            3int
        } else {
            0int
        })
    }

    /// Number of columns.
    pub open spec fn spec_total(&self) -> int {
        self.spec_scale() + (if self.solves_scale {
            1int
        } else {
            0int
        })
    }

    /// First column of gravity.
    pub fn gravity_base(&self) -> (col: usize)
        requires
            self.fits(),
        ensures
            col == self.spec_gravity(),
    {
        3 * self.n_keyframes
    }

    /// First column after gravity.
    pub fn bias_base(&self) -> (col: usize)
        requires
            self.fits(),
        ensures
            col == self.spec_bias(),
    {
        if self.has_gravity_prior {
            self.gravity_base() + 2
        } else {
            self.gravity_base() + 3
        }
    }

    /// First column after the accelerometer bias.
    pub fn scale_col(&self) -> (col: usize)
        requires
            self.fits(),
        ensures
            col == self.spec_scale(),
    {
        if self.solves_bias {
            self.bias_base() + 3
        } else {
            self.bias_base()
        }
    }

    /// Number of columns.
    pub fn total_cols(&self) -> (n: usize)
        requires
            self.fits(),
        ensures
            n == self.spec_total(),
    {
        if self.solves_scale {
            self.scale_col() + 1
        } else {
            self.scale_col()
        }
    }
}

/// Coefficients of one equation of an edge along one axis, and its right-hand side. The
/// coefficient of the velocity at the end counts in velocity equations, that of the scale
/// in position equations. Where gravity is free it has one coefficient, in the column of
/// the axis.
#[derive(Debug)]
pub struct LinearTerms<S> {
    pub to: S,
    pub from: S,
    pub gravity: [S; 2],
    pub bias: [S; 3],
    pub scale: S,
    pub rhs: S,
}

/// The row of an equation.
pub open spec fn scattered<S, M>(
    layout: LinearLayout,
    edge: InitEdge<M>,
    ax: int,
    is_velocity: bool,
    terms: LinearTerms<S>,
    zero: S,
) -> Seq<S> {
    let row = Seq::new(layout.spec_total() as nat, |c: int| zero);
    let row = if is_velocity {
        row.update(layout.spec_velocity(edge.to as int, ax), terms.to)
    } else {
        row
    };
    let row = row.update(layout.spec_velocity(edge.from as int, ax), terms.from);
    let row = if layout.has_gravity_prior {
        row.update(layout.spec_gravity(), terms.gravity@[0]).update(
            layout.spec_gravity() + 1,
            terms.gravity@[1],
        )
    } else {
        row.update(layout.spec_gravity() + ax, terms.gravity@[0])
    };
    let row = if layout.solves_bias {
        row.update(layout.spec_bias(), terms.bias@[0]).update(
            layout.spec_bias() + 1,
            terms.bias@[1],
        ).update(layout.spec_bias() + 2, terms.bias@[2])
    } else {
        row
    };
    if layout.solves_scale && !is_velocity {
        row.update(layout.spec_scale(), terms.scale)
    } else {
        row
    }
}

fn scatter<S: Copy, M>(
    layout: &LinearLayout,
    edge: &InitEdge<M>,
    ax: usize,
    is_velocity: bool,
    terms: &LinearTerms<S>,
    zero: S,
) -> (row: Vec<S>)
    requires
        layout.fits(),
        ax < 3,
        edge.from < layout.n_keyframes,
        edge.to < layout.n_keyframes,
    ensures
        row@ == scattered(*layout, *edge, ax as int, is_velocity, *terms, zero),
        row@.len() == layout.spec_total(),
{
    let total: usize = layout.total_cols();
    let mut row: Vec<S> = Vec::new();
    let mut c: usize = 0;
    while c < total
        invariant
            c <= total,
            row@ == Seq::new(c as nat, |c: int| zero),
        decreases total - c,
    {
        row.push(zero);
        c += 1;
        assert(row@ =~= Seq::new(c as nat, |c: int| zero));
    }
    if is_velocity {
        row.set(3 * edge.to + ax, terms.to);
    }
    row.set(3 * edge.from + ax, terms.from);
    let gravity: usize = layout.gravity_base();
    if layout.has_gravity_prior {
        row.set(gravity, terms.gravity[0]);
        row.set(gravity + 1, terms.gravity[1]);
    } else {
        row.set(gravity + ax, terms.gravity[0]);
    }
    if layout.solves_bias {
        let bias: usize = layout.bias_base();
        row.set(bias, terms.bias[0]);
        row.set(bias + 1, terms.bias[1]);
        row.set(bias + 2, terms.bias[2]);
    }
    if layout.solves_scale && !is_velocity {
        row.set(layout.scale_col(), terms.scale);
    }
    row
}

/// The blocks of columns do not overlap: where each coefficient of an equation is found in
/// its row, and that all other columns are zero.
pub proof fn lemma_scattered<S, M>(
    layout: LinearLayout,
    edge: InitEdge<M>,
    ax: int,
    is_velocity: bool,
    terms: LinearTerms<S>,
    zero: S,
)
    requires
        0 <= ax < 3,
        edge.from < layout.n_keyframes,
        edge.to < layout.n_keyframes,
    ensures
        ({
            let row = scattered(layout, edge, ax, is_velocity, terms, zero);
            &&& row.len() == layout.spec_total()
            &&& row[layout.spec_velocity(edge.from as int, ax)] == terms.from
            &&& is_velocity && edge.to != edge.from ==> row[layout.spec_velocity(
                edge.to as int,
                ax,
            )] == terms.to
            &&& layout.has_gravity_prior ==> row[layout.spec_gravity()] == terms.gravity@[0]
                && row[layout.spec_gravity() + 1] == terms.gravity@[1]
            &&& !layout.has_gravity_prior ==> row[layout.spec_gravity() + ax] == terms.gravity@[0]
            &&& layout.solves_bias ==> forall|i: int|
                0 <= i < 3 ==> row[layout.spec_bias() + i] == #[trigger] terms.bias@[i]
            &&& layout.solves_scale && !is_velocity ==> row[layout.spec_scale()] == terms.scale
            &&& layout.solves_scale && is_velocity ==> row[layout.spec_scale()] == zero
            &&& forall|kf: int, a: int|
                0 <= kf < layout.n_keyframes && 0 <= a < 3 && (a != ax || (kf != edge.from && !(
                is_velocity && kf == edge.to))) ==> row[#[trigger] layout.spec_velocity(kf, a)]
                    == zero
            &&& !layout.has_gravity_prior ==> forall|a: int|
                0 <= a < 3 && a != ax ==> #[trigger] row[layout.spec_gravity() + a] == zero
        }),
{
}

/// A solution of the linear system, taken apart.
#[derive(Debug)]
pub struct LinearSolution<S> {
    pub velocities: Vec<[S; 3]>,
    /// Two or three numbers.
    pub gravity: Vec<S>,
    pub accel_bias: Option<[S; 3]>,
    pub scale: Option<S>,
}

/// `parts` are the parts of the solution.
pub open spec fn is_gathered<S>(
    layout: LinearLayout,
    solution: Seq<S>,
    parts: LinearSolution<S>,
) -> bool {
    &&& parts.velocities@.len() == layout.n_keyframes
    &&& forall|kf: int, ax: int|
        0 <= kf < layout.n_keyframes && 0 <= ax < 3 ==> #[trigger] parts.velocities@[kf]@[ax]
            == solution[layout.spec_velocity(kf, ax)]
    &&& parts.gravity@ == solution.subrange(layout.spec_gravity(), layout.spec_bias())
    &&& parts.accel_bias is Some <==> layout.solves_bias
    &&& layout.solves_bias ==> forall|i: int|
        0 <= i < 3 ==> #[trigger] parts.accel_bias->0@[i] == solution[layout.spec_bias() + i]
    &&& parts.scale == (if layout.solves_scale {
        Some(solution[layout.spec_scale()])
    } else {
        None
    })
}

fn gather<S: Copy>(layout: &LinearLayout, solution: &Vec<S>) -> (parts: LinearSolution<S>)
    requires
        layout.fits(),
        solution@.len() >= layout.spec_total(),
    ensures
        is_gathered(*layout, solution@, parts),
{
    let mut velocities: Vec<[S; 3]> = Vec::new();
    let mut kf: usize = 0;
    while kf < layout.n_keyframes
        invariant
            kf <= layout.n_keyframes,
            layout.fits(),
            solution@.len() >= layout.spec_total(),
            velocities@.len() == kf,
            forall|k: int, ax: int|
                0 <= k < kf && 0 <= ax < 3 ==> #[trigger] velocities@[k]@[ax]
                    == solution@[layout.spec_velocity(k, ax)],
        decreases layout.n_keyframes - kf,
    {
        velocities.push([solution[3 * kf], solution[3 * kf + 1], solution[3 * kf + 2]]);
        kf += 1;
    }
    let base: usize = layout.gravity_base();
    let end: usize = layout.bias_base();
    let mut gravity: Vec<S> = Vec::new();
    let mut c: usize = base;
    while c < end
        invariant
            base <= c <= end,
            end <= solution@.len(),
            gravity@ == solution@.subrange(base as int, c as int),
        decreases end - c,
    {
        gravity.push(solution[c]);
        c += 1;
        assert(gravity@ =~= solution@.subrange(base as int, c as int));
    }
    let accel_bias = if layout.solves_bias {
        Some([solution[end], solution[end + 1], solution[end + 2]])
    } else {
        None
    };
    let scale = if layout.solves_scale {
        Some(solution[layout.scale_col()])
    } else {
        None
    };
    LinearSolution { velocities, gravity, accel_bias, scale }
}

/// Where the coefficients of the equations come from, and how the system is solved.
pub struct LinearEquations<P, V, Q> {
    /// The position equation of an edge along an axis.
    pub position: P,
    /// The velocity equation of an edge along an axis.
    pub velocity: V,
    /// The least-squares solution of rows and right-hand sides.
    pub solve: Q,
}

/// Row `r` is that of an equation: three position equations and three velocity equations
/// per edge, one for each axis.
pub open spec fn is_equation<S, M, P, V, Q>(
    layout: LinearLayout,
    edges: Seq<InitEdge<M>>,
    equations: LinearEquations<P, V, Q>,
    zero: S,
    r: int,
    row: Seq<S>,
    rhs: S,
) -> bool where
    P: Fn(&InitEdge<M>, usize) -> LinearTerms<S>,
    V: Fn(&InitEdge<M>, usize) -> LinearTerms<S>,
    Q: Fn(&Vec<Vec<S>>, &Vec<S>) -> Option<Vec<S>>,
 {
    exists|terms: LinearTerms<S>|
        {
            &&& #[trigger] are_terms(equations, edges, r, terms)
            &&& row == scattered(layout, edges[r / 6], r % 3, r % 6 >= 3, terms, zero)
            &&& rhs == terms.rhs
        }
}

/// `terms` are the coefficients of equation `r`.
pub open spec fn are_terms<S, M, P, V, Q>(
    equations: LinearEquations<P, V, Q>,
    edges: Seq<InitEdge<M>>,
    r: int,
    terms: LinearTerms<S>,
) -> bool where
    P: Fn(&InitEdge<M>, usize) -> LinearTerms<S>,
    V: Fn(&InitEdge<M>, usize) -> LinearTerms<S>,
    Q: Fn(&Vec<Vec<S>>, &Vec<S>) -> Option<Vec<S>>,
 {
    if r % 6 >= 3 {
        call_ensures(equations.velocity, (&edges[r / 6], (r % 3) as usize), terms)
    } else {
        call_ensures(equations.position, (&edges[r / 6], (r % 3) as usize), terms)
    }
}

/// `rows` and `rhs` are the linear system.
pub open spec fn is_system<S, M, P, V, Q>(
    layout: LinearLayout,
    edges: Seq<InitEdge<M>>,
    equations: LinearEquations<P, V, Q>,
    zero: S,
    rows: Seq<Vec<S>>,
    rhs: Seq<S>,
    n: int,
) -> bool where
    P: Fn(&InitEdge<M>, usize) -> LinearTerms<S>,
    V: Fn(&InitEdge<M>, usize) -> LinearTerms<S>,
    Q: Fn(&Vec<Vec<S>>, &Vec<S>) -> Option<Vec<S>>,
 {
    &&& rows.len() == n
    &&& rhs.len() == n
    &&& forall|r: int|
        0 <= r < n ==> is_equation(
            layout,
            edges,
            equations,
            zero,
            r,
            #[trigger] rows[r]@,
            rhs[r],
        )
}

/// What the first `n` columns of a row come to at `x`, in exact arithmetic. `value` gives the
/// coefficients as real numbers.
pub open spec fn weighed<S>(
    value: spec_fn(S) -> real,
    row: Seq<S>,
    x: Seq<real>,
    n: nat,
) -> real
    decreases n,
{
    if n == 0 {
        0 as real
    } else {
        weighed(value, row, x, (n - 1) as nat) + value(row[n - 1]) * x[n - 1]
    }
}

/// `x` meets an equation with no residual.
pub open spec fn meets<S>(
    value: spec_fn(S) -> real,
    row: Seq<S>,
    rhs: S,
    x: Seq<real>,
) -> bool {
    weighed(value, row, x, row.len()) == value(rhs)
}

/// `known` are the coefficients of an equation at scale one: those with an unknown scale, with
/// that of the scale moved to the right-hand side.
pub open spec fn is_at_unit_scale<S>(
    value: spec_fn(S) -> real,
    is_velocity: bool,
    terms: LinearTerms<S>,
    known: LinearTerms<S>,
) -> bool {
    &&& known.to == terms.to
    &&& known.from == terms.from
    &&& known.gravity@ == terms.gravity@
    &&& known.bias@ == terms.bias@
    &&& value(known.rhs) == (if is_velocity {
        value(terms.rhs)
    } else {
        value(terms.rhs) - value(terms.scale)
    })
}

/// The layout without a column for the scale.
pub open spec fn at_known_layout(layout: LinearLayout) -> LinearLayout {
    LinearLayout { solves_scale: false, ..layout }
}

proof fn lemma_weighed_agrees<S>(
    value: spec_fn(S) -> real,
    a: Seq<S>,
    b: Seq<S>,
    x: Seq<real>,
    y: Seq<real>,
    n: nat,
)
    requires
        forall|c: int| 0 <= c < n ==> #[trigger] a[c] == b[c],
        forall|c: int| 0 <= c < n ==> #[trigger] x[c] == y[c],
    ensures
        weighed(value, a, x, n) == weighed(value, b, y, n),
    decreases n,
{
    if n > 0 {
        lemma_weighed_agrees(value, a, b, x, y, (n - 1) as nat);
        assert(a[n - 1] == b[n - 1]);
        assert(x[n - 1] == y[n - 1]);
    }
}

/// A row without a scale is the row with one but for the column of the scale, so that numbers
/// of which the scale is one meet an equation exactly where the others meet the equation at
/// scale one.
pub proof fn lemma_known_scale_row<S, M>(
    layout: LinearLayout,
    edge: InitEdge<M>,
    ax: int,
    is_velocity: bool,
    terms: LinearTerms<S>,
    known: LinearTerms<S>,
    zero: S,
    value: spec_fn(S) -> real,
    x: Seq<real>,
)
    requires
        layout.solves_scale,
        0 <= ax < 3,
        edge.from < layout.n_keyframes,
        edge.to < layout.n_keyframes,
        value(zero) == 0 as real,
        is_at_unit_scale(value, is_velocity, terms, known),
        x.len() == layout.spec_total(),
        x.last() == 1 as real,
    ensures
        ({
            let row = scattered(layout, edge, ax, is_velocity, terms, zero);
            let known_row = scattered(at_known_layout(layout), edge, ax, is_velocity, known, zero);
            &&& known_row == row.drop_last()
            &&& meets(value, row, terms.rhs, x) <==> meets(
                value,
                known_row,
                known.rhs,
                x.drop_last(),
            )
        }),
{
    let row = scattered(layout, edge, ax, is_velocity, terms, zero);
    let known_row = scattered(at_known_layout(layout), edge, ax, is_velocity, known, zero);
    lemma_scattered(layout, edge, ax, is_velocity, terms, zero);
    assert(known_row =~= row.drop_last());
    let n = known_row.len();
    lemma_weighed_agrees(value, row, known_row, x, x.drop_last(), n);
    let last = value(row[n as int]);
    assert(last * x[n as int] == last) by (nonlinear_arith)
        requires
            x[n as int] == 1 as real,
    ;
}

/// The system at a known scale is the one with an unknown scale at scale one: where what the
/// scale multiplies is moved to the right-hand side, numbers of which the scale is one meet
/// every equation exactly where the others meet every equation of the system without a scale.
pub proof fn lemma_known_scale_system<S, M, P, V, Q, P2, V2, Q2>(
    layout: LinearLayout,
    edges: Seq<InitEdge<M>>,
    equations: LinearEquations<P, V, Q>,
    known: LinearEquations<P2, V2, Q2>,
    zero: S,
    rows: Seq<Vec<S>>,
    rhs: Seq<S>,
    known_rows: Seq<Vec<S>>,
    known_rhs: Seq<S>,
    value: spec_fn(S) -> real,
    x: Seq<real>,
) where
    P: Fn(&InitEdge<M>, usize) -> LinearTerms<S>,
    V: Fn(&InitEdge<M>, usize) -> LinearTerms<S>,
    Q: Fn(&Vec<Vec<S>>, &Vec<S>) -> Option<Vec<S>>,
    P2: Fn(&InitEdge<M>, usize) -> LinearTerms<S>,
    V2: Fn(&InitEdge<M>, usize) -> LinearTerms<S>,
    Q2: Fn(&Vec<Vec<S>>, &Vec<S>) -> Option<Vec<S>>,

    requires
        layout.solves_scale,
        forall|e: int|
            0 <= e < edges.len() ==> (#[trigger] edges[e]).from < layout.n_keyframes
                && edges[e].to < layout.n_keyframes,
        value(zero) == 0 as real,
        is_system(layout, edges, equations, zero, rows, rhs, 6 * edges.len() as int),
        is_system(
            at_known_layout(layout),
            edges,
            known,
            zero,
            known_rows,
            known_rhs,
            6 * edges.len() as int,
        ),
        forall|r: int, terms: LinearTerms<S>, moved: LinearTerms<S>|
            0 <= r < 6 * edges.len() && #[trigger] are_terms(equations, edges, r, terms)
                && #[trigger] are_terms(known, edges, r, moved) ==> is_at_unit_scale(
                value,
                r % 6 >= 3,
                terms,
                moved,
            ),
        x.len() == layout.spec_total(),
        x.last() == 1 as real,
    ensures
        (forall|r: int|
            0 <= r < 6 * edges.len() ==> meets(value, (#[trigger] rows[r])@, rhs[r], x)) <==> (
        forall|r: int|
            0 <= r < 6 * edges.len() ==> meets(
                value,
                (#[trigger] known_rows[r])@,
                known_rhs[r],
                x.drop_last(),
            )),
{
    assert forall|r: int| 0 <= r < 6 * edges.len() implies meets(
        value,
        (#[trigger] rows[r])@,
        rhs[r],
        x,
    ) == meets(value, (#[trigger] known_rows[r])@, known_rhs[r], x.drop_last()) by {
        assert(is_equation(layout, edges, equations, zero, r, rows[r]@, rhs[r]));
        assert(is_equation(
            at_known_layout(layout),
            edges,
            known,
            zero,
            r,
            known_rows[r]@,
            known_rhs[r],
        ));
        let terms = choose|terms: LinearTerms<S>|
            {
                &&& #[trigger] are_terms(equations, edges, r, terms)
                &&& rows[r]@ == scattered(layout, edges[r / 6], r % 3, r % 6 >= 3, terms, zero)
                &&& rhs[r] == terms.rhs
            };
        let moved = choose|moved: LinearTerms<S>|
            {
                &&& #[trigger] are_terms(known, edges, r, moved)
                &&& known_rows[r]@ == scattered(
                    at_known_layout(layout),
                    edges[r / 6],
                    r % 3,
                    r % 6 >= 3,
                    moved,
                    zero,
                )
                &&& known_rhs[r] == moved.rhs
            };
        assert(edges[r / 6].from < layout.n_keyframes);
        lemma_known_scale_row(
            layout,
            edges[r / 6],
            r % 3,
            r % 6 >= 3,
            terms,
            moved,
            zero,
            value,
            x,
        );
    }
    if forall|r: int|
        0 <= r < 6 * edges.len() ==> meets(value, (#[trigger] rows[r])@, rhs[r], x) {
        assert forall|r: int| 0 <= r < 6 * edges.len() implies meets(
            value,
            (#[trigger] known_rows[r])@,
            known_rhs[r],
            x.drop_last(),
        ) by {
            assert(meets(value, rows[r]@, rhs[r], x));
        }
    } else {
        let r = choose|r: int|
            0 <= r < 6 * edges.len() && !meets(value, (#[trigger] rows[r])@, rhs[r], x);
        assert(!meets(value, known_rows[r]@, known_rhs[r], x.drop_last()));
    }
}

/// A solution without its scale is taken apart into the same velocities, gravity and
/// accelerometer bias as the solution.
pub proof fn lemma_known_scale_solution<S>(
    layout: LinearLayout,
    solution: Seq<S>,
    parts: LinearSolution<S>,
    known_parts: LinearSolution<S>,
)
    requires
        layout.solves_scale,
        solution.len() == layout.spec_total(),
        is_gathered(layout, solution, parts),
        is_gathered(at_known_layout(layout), solution.drop_last(), known_parts),
    ensures
        known_parts.velocities@.len() == parts.velocities@.len(),
        forall|kf: int, ax: int|
            0 <= kf < parts.velocities@.len() && 0 <= ax < 3
                ==> #[trigger] known_parts.velocities@[kf]@[ax] == parts.velocities@[kf]@[ax],
        known_parts.gravity@ == parts.gravity@,
        known_parts.accel_bias is Some <==> parts.accel_bias is Some,
        parts.accel_bias is Some ==> known_parts.accel_bias->0@ =~= parts.accel_bias->0@,
        parts.scale == Some(solution.last()),
        known_parts.scale is None,
{
    let known = at_known_layout(layout);
    let fewer = solution.drop_last();
    assert forall|kf: int, ax: int|
        0 <= kf < parts.velocities@.len() && 0 <= ax
            < 3 implies #[trigger] known_parts.velocities@[kf]@[ax]
        == parts.velocities@[kf]@[ax] by {
        assert(parts.velocities@[kf]@[ax] == solution[layout.spec_velocity(kf, ax)]);
        assert(known_parts.velocities@[kf]@[ax] == fewer[known.spec_velocity(kf, ax)]);
    }
    assert(known_parts.gravity@ =~= parts.gravity@);
    if layout.solves_bias {
        assert forall|i: int| 0 <= i < 3 implies known_parts.accel_bias->0@[i]
            == #[trigger] parts.accel_bias->0@[i] by {
            assert(known_parts.accel_bias->0@[i] == fewer[known.spec_bias() + i]);
        }
    }
}

/// Solves for velocities, gravity and, where asked for, accelerometer bias and scale.
///
/// There is no solution where there are fewer equations than unknowns, or where the system
/// cannot be solved.
pub fn solve_linear<S: Copy, M, P, V, Q>(
    layout: &LinearLayout,
    edges: &Vec<InitEdge<M>>,
    equations: &LinearEquations<P, V, Q>,
    zero: S,
) -> (found: Option<LinearSolution<S>>) where
    P: Fn(&InitEdge<M>, usize) -> LinearTerms<S>,
    V: Fn(&InitEdge<M>, usize) -> LinearTerms<S>,
    Q: Fn(&Vec<Vec<S>>, &Vec<S>) -> Option<Vec<S>>,

    requires
        layout.fits(),
        6 * edges@.len() <= usize::MAX,
        forall|e: int|
            0 <= e < edges@.len() ==> (#[trigger] edges@[e]).from < layout.n_keyframes
                && edges@[e].to < layout.n_keyframes,
        forall|edge: &InitEdge<M>, ax: usize| call_requires(equations.position, (edge, ax)),
        forall|edge: &InitEdge<M>, ax: usize| call_requires(equations.velocity, (edge, ax)),
        forall|rows: &Vec<Vec<S>>, rhs: &Vec<S>| call_requires(equations.solve, (rows, rhs)),
        forall|rows: &Vec<Vec<S>>, rhs: &Vec<S>, solution: Option<Vec<S>>|
            call_ensures(equations.solve, (rows, rhs), solution) && solution is Some
                ==> solution->0@.len() >= layout.spec_total(),
    ensures
        if 6 * edges@.len() < layout.spec_total() {
            found is None
        } else {
            exists|rows: Vec<Vec<S>>, rhs: Vec<S>, solution: Option<Vec<S>>|
                {
                    &&& is_system(
                        *layout,
                        edges@,
                        *equations,
                        zero,
                        rows@,
                        rhs@,
                        6 * edges@.len() as int,
                    )
                    &&& #[trigger] call_ensures(equations.solve, (&rows, &rhs), solution)
                    &&& match solution {
                        None => found is None,
                        Some(solution) => found is Some && is_gathered(
                            *layout,
                            solution@,
                            found->0,
                        ),
                    }
                }
        },
{
    let mut rows: Vec<Vec<S>> = Vec::new();
    let mut rhs: Vec<S> = Vec::new();
    let n: usize = 6 * edges.len();
    let mut r: usize = 0;
    while r < n
        invariant
            r <= n,
            n == 6 * edges@.len(),
            layout.fits(),
            forall|e: int|
                0 <= e < edges@.len() ==> (#[trigger] edges@[e]).from < layout.n_keyframes
                    && edges@[e].to < layout.n_keyframes,
            forall|edge: &InitEdge<M>, ax: usize| call_requires(equations.position, (edge, ax)),
            forall|edge: &InitEdge<M>, ax: usize| call_requires(equations.velocity, (edge, ax)),
            is_system(*layout, edges@, *equations, zero, rows@, rhs@, r as int),
        decreases n - r,
    {
        let edge = &edges[r / 6];
        let ax: usize = r % 3;
        let is_velocity = r % 6 >= 3;
        let ghost rows0 = rows@;
        let ghost rhs0 = rhs@;
        let terms = if is_velocity {
            (equations.velocity)(edge, ax)
        } else {
            (equations.position)(edge, ax)
        };
        let row = scatter(layout, edge, ax, is_velocity, &terms, zero);
        assert(*edge == edges@[r as int / 6]);
        assert((r as int % 3) as usize == ax);
        assert(are_terms(*equations, edges@, r as int, terms));
        assert(is_equation(
            *layout,
            edges@,
            *equations,
            zero,
            r as int,
            row@,
            terms.rhs,
        ));
        rhs.push(terms.rhs);
        rows.push(row);
        assert forall|h: int| 0 <= h < r + 1 implies is_equation(
            *layout,
            edges@,
            *equations,
            zero,
            h,
            #[trigger] rows@[h]@,
            rhs@[h],
        ) by {
            if h < r {
                assert(rows@[h] == rows0[h]);
                assert(rhs@[h] == rhs0[h]);
            }
        }
        r += 1;
    }
    if n < layout.total_cols() {
        return None;
    }
    let solution = (equations.solve)(&rows, &rhs);
    let ghost said = solution;
    assert(call_ensures(equations.solve, (&rows, &rhs), said));
    match solution {
        None => None,
        Some(solution) => Some(gather(layout, &solution)),
    }
}

/// After initialization the system is at the last keyframe of the window: it has the velocity
/// of that keyframe, whatever it had before, and its pose. The step from frame to frame is
/// forgotten, and nothing else changes. With no keyframe in the window the velocity and the
/// pose stay as they were.
pub proof fn lemma_initialized_state<T>(
    before: SystemState<T>,
    kfs: Seq<Keyframe>,
    inertial: Seq<InertialState>,
    start_idx: usize,
    after: SystemState<T>,
)
    requires
        kfs.len() <= usize::MAX,
        after == initialized_state(before, kfs, inertial, start_idx),
    ensures
        forall|k: int|
            {
                &&& 0 <= k < kfs.len()
                &&& (#[trigger] kfs[k]).frame.idx >= start_idx
                &&& forall|j: int| k < j < kfs.len() ==> (#[trigger] kfs[j]).frame.idx < start_idx
            } ==> {
                &&& after.velocity_world == inertial[k].velocity_world
                &&& after.pose_world_to_cam == kfs[k].frame.pose_world_to_cam
            },
        (forall|k: int| 0 <= k < kfs.len() ==> (#[trigger] kfs[k]).frame.idx < start_idx) ==> {
            &&& after.velocity_world == before.velocity_world
            &&& after.pose_world_to_cam == before.pose_world_to_cam
        },
        after.velocity is None,
        after.imu_initialized,
        after.last_frame_timestamp_sec == before.last_frame_timestamp_sec,
        after.imu_init_timestamp_sec == before.imu_init_timestamp_sec,
        after.current_keyframe_idx == before.current_keyframe_idx,
        after.last_keyframe_idx == before.last_keyframe_idx,
        after.lost_since_sec == before.lost_since_sec,
        after.bootstrap_frame == before.bootstrap_frame,
        after.mode == before.mode,
{
    let inside = |p: int| in_window(kfs, start_idx, p);
    let window = window_of(kfs, start_idx);
    crate::selection::lemma_indices_where(kfs.len(), inside);
    assert forall|k: int|
        {
            &&& 0 <= k < kfs.len()
            &&& (#[trigger] kfs[k]).frame.idx >= start_idx
            &&& forall|j: int| k < j < kfs.len() ==> (#[trigger] kfs[j]).frame.idx < start_idx
        } implies {
        &&& after.velocity_world == inertial[k].velocity_world
        &&& after.pose_world_to_cam == kfs[k].frame.pose_world_to_cam
    } by {
        assert(inside(k));
        assert(window.contains(k as usize));
        let i = choose|i: int| 0 <= i < window.len() && window[i] == k as usize;
        let last = window[window.len() - 1] as int;
        assert(inside(last));
        assert(kfs[last].frame.idx >= start_idx);
        if i < window.len() - 1 {
            assert(window[i] < window[window.len() - 1]);
        }
        assert(last == k);
    }
    if forall|k: int| 0 <= k < kfs.len() ==> (#[trigger] kfs[k]).frame.idx < start_idx {
        if window.len() > 0 {
            assert(inside(window[0] as int));
            assert(kfs[window[0] as int].frame.idx < start_idx);
        }
    }
}

/// The keyframes of the window take the velocities in turn: a keyframe takes, in the new world
/// frame, the one whose place is the number of keyframes of the window before it, and the
/// bias. All others, and those for which there is no velocity left, keep what they had.
pub proof fn lemma_velocities_in_turn<V: Fn(&Vec3F64) -> Vec3F64>(
    kfs: Seq<Keyframe>,
    start_idx: usize,
    align: V,
    init: ImuInitResult,
    k: int,
    before: InertialState,
    after: InertialState,
)
    requires
        0 <= k < kfs.len() <= usize::MAX,
        is_assigned(kfs, start_idx, align, init, k, before, after),
    ensures
        ({
            let earlier = kfs.take(k).filter(|kf: Keyframe| kf.frame.idx >= start_idx).len() as int;
            let takes = kfs[k].frame.idx >= start_idx && earlier < init.velocities_world@.len();
            &&& takes ==> call_ensures(
                align,
                (&init.velocities_world@[earlier],),
                after.velocity_world,
            ) && after.imu_bias == init.bias
            &&& !takes ==> after == before
        }),
{
    crate::selection::lemma_indices_where_picks(
        kfs,
        k as nat,
        |p: int| in_window(kfs, start_idx, p),
        |kf: Keyframe| kf.frame.idx >= start_idx,
    );
}

/// Where there are as many velocities as keyframes in the window, and at least one, the
/// velocity of the system after initialization is the last of them in the new world frame,
/// whatever it was before.
pub proof fn lemma_initialized_velocity<T, V: Fn(&Vec3F64) -> Vec3F64>(
    before: SystemState<T>,
    kfs: Seq<Keyframe>,
    aligned: Seq<Keyframe>,
    start_idx: usize,
    align: V,
    init: ImuInitResult,
    inertial_before: Seq<InertialState>,
    inertial: Seq<InertialState>,
    after: SystemState<T>,
)
    requires
        kfs.len() <= usize::MAX,
        aligned.len() == kfs.len(),
        forall|k: int| 0 <= k < kfs.len() ==> (#[trigger] aligned[k]).frame.idx == kfs[k].frame.idx,
        forall|k: int|
            0 <= k < kfs.len() ==> is_assigned(
                kfs,
                start_idx,
                align,
                init,
                k,
                inertial_before[k],
                #[trigger] inertial[k],
            ),
        after == initialized_state(before, aligned, inertial, start_idx),
        init.velocities_world@.len() > 0,
        init.velocities_world@.len() == kfs.filter(
            |kf: Keyframe| kf.frame.idx >= start_idx,
        ).len(),
    ensures
        call_ensures(align, (&init.velocities_world@.last(),), after.velocity_world),
{
    let inside = |p: int| in_window(kfs, start_idx, p);
    let chosen = |kf: Keyframe| kf.frame.idx >= start_idx;
    let n = kfs.len();
    crate::selection::lemma_indices_where_picks(kfs, n, inside, chosen);
    assert(kfs.take(n as int) =~= kfs);
    let window = indices_where(n, inside);
    crate::selection::lemma_indices_where(n, inside);
    let last = window.last() as int;
    assert(inside(last));
    lemma_last_rank(n, inside);
    assert(is_assigned(kfs, start_idx, align, init, last, inertial_before[last], inertial[last]));
    lemma_window_same(kfs, aligned, start_idx, n);
}

/// All but the last of the numbers listed are below it.
proof fn lemma_last_rank(n: nat, p: spec_fn(int) -> bool)
    requires
        n <= usize::MAX,
        indices_where(n, p).len() > 0,
    ensures
        indices_where(indices_where(n, p).last() as nat, p).len() == indices_where(n, p).len() - 1,
    decreases n,
{
    if n > 0 && !p(n - 1) {
        lemma_last_rank((n - 1) as nat, p);
    }
}

/// Only the pose of a keyframe is brought to the new world frame, and only the position of a
/// point.
pub proof fn lemma_aligned<P: Fn(&Pose3d) -> Pose3d, X: Fn(&Vec3F64) -> Vec3F64>(
    pose: P,
    point: X,
    kf_before: Keyframe,
    kf_after: Keyframe,
    mp_before: MapPoint,
    mp_after: MapPoint,
)
    requires
        is_aligned_keyframe(pose, kf_before, kf_after),
        is_aligned_point(point, mp_before, mp_after),
    ensures
        call_ensures(
            pose,
            (&kf_before.frame.pose_world_to_cam,),
            kf_after.frame.pose_world_to_cam,
        ),
        kf_after.frame.idx == kf_before.frame.idx,
        kf_after.frame.features == kf_before.frame.features,
        kf_after.frame.image_size == kf_before.frame.image_size,
        kf_after.frame.keypoint_colors == kf_before.frame.keypoint_colors,
        kf_after.frame.stereo == kf_before.frame.stereo,
        kf_after.map_point_by_desc_idx == kf_before.map_point_by_desc_idx,
        call_ensures(point, (&mp_before.position,), mp_after.position),
        mp_after.descriptor == mp_before.descriptor,
        mp_after.keyframe_idx == mp_before.keyframe_idx,
        mp_after.n_visible == mp_before.n_visible,
        mp_after.n_found == mp_before.n_found,
        mp_after.culled == mp_before.culled,
{
}

/// A keyframe with the frame index is at some place of the window.
pub open spec fn has_place(kfs: Seq<Keyframe>, order: Seq<usize>, frame_idx: usize) -> bool {
    exists|l: int|
        0 <= l < order.len() && kfs[(#[trigger] order[l]) as int].frame.idx == frame_idx
}

/// The place of a frame index is the last one at which the window has a keyframe with it, and
/// there is one exactly where the window has such a keyframe.
pub proof fn lemma_place(kfs: Seq<Keyframe>, order: Seq<usize>, frame_idx: usize)
    requires
        order.len() <= usize::MAX,
    ensures
        local_of(kfs, order, frame_idx) is Some <==> has_place(kfs, order, frame_idx),
        match local_of(kfs, order, frame_idx) {
            None => true,
            Some(l) => {
                &&& l < order.len()
                &&& kfs[order[l as int] as int].frame.idx == frame_idx
                &&& forall|j: int|
                    l < j < order.len() ==> kfs[(#[trigger] order[j]) as int].frame.idx != frame_idx
            },
        },
    decreases order.len(),
{
    if order.len() > 0 {
        let head = order.drop_last();
        assert(order.last() == order[order.len() - 1]);
        if kfs[order.last() as int].frame.idx != frame_idx {
            lemma_place(kfs, head, frame_idx);
            assert(forall|j: int| 0 <= j < head.len() ==> head[j] == #[trigger] order[j]);
            if has_place(kfs, order, frame_idx) {
                let l = choose|l: int|
                    0 <= l < order.len() && kfs[(#[trigger] order[l]) as int].frame.idx
                        == frame_idx;
                assert(kfs[head[l] as int].frame.idx == frame_idx);
            }
            if has_place(kfs, head, frame_idx) {
                let l = choose|l: int|
                    0 <= l < head.len() && kfs[(#[trigger] head[l]) as int].frame.idx == frame_idx;
                assert(kfs[order[l] as int].frame.idx == frame_idx);
            }
        }
    }
}

/// The edges are the usable factors with both keyframes in the window, in their order: each
/// holds the measurements of its factor, starts at the place of its previous keyframe and ends
/// at that of its current one.
pub proof fn lemma_edges_are_the_usable_factors<M>(
    kfs: Seq<Keyframe>,
    order: Seq<usize>,
    factors: Seq<ImuFactor<M>>,
    usable: Seq<bool>,
    n: nat,
)
    requires
        order.len() <= usize::MAX,
        n <= factors.len() <= usize::MAX,
    ensures
        ({
            let edges = edges_of(kfs, order, factors, usable, n);
            let taken = indices_where(
                n,
                |f: int|
                    usable[f] && has_place(kfs, order, factors[f].prev_kf_idx) && has_place(
                        kfs,
                        order,
                        factors[f].curr_kf_idx,
                    ),
            );
            &&& edges.len() == taken.len()
            &&& forall|e: int|
                0 <= e < edges.len() ==> {
                    let factor = factors[taken[e] as int];
                    let edge = #[trigger] edges[e];
                    &&& edge.preintegrated == factor.preintegrated
                    &&& edge.from < order.len()
                    &&& edge.to < order.len()
                    &&& kfs[order[edge.from as int] as int].frame.idx == factor.prev_kf_idx
                    &&& kfs[order[edge.to as int] as int].frame.idx == factor.curr_kf_idx
                }
        }),
    decreases n,
{
    if n > 0 {
        let m = (n - 1) as nat;
        lemma_edges_are_the_usable_factors(kfs, order, factors, usable, m);
        lemma_place(kfs, order, factors[n - 1].prev_kf_idx);
        lemma_place(kfs, order, factors[n - 1].curr_kf_idx);
        let before = edges_of(kfs, order, factors, usable, m);
        let edges = edges_of(kfs, order, factors, usable, n);
        let takes = |f: int|
            usable[f] && has_place(kfs, order, factors[f].prev_kf_idx) && has_place(
                kfs,
                order,
                factors[f].curr_kf_idx,
            );
        let taken = indices_where(n, takes);
        assert forall|e: int| 0 <= e < edges.len() implies {
            let factor = factors[taken[e] as int];
            let edge = #[trigger] edges[e];
            &&& edge.preintegrated == factor.preintegrated
            &&& edge.from < order.len()
            &&& edge.to < order.len()
            &&& kfs[order[edge.from as int] as int].frame.idx == factor.prev_kf_idx
            &&& kfs[order[edge.to as int] as int].frame.idx == factor.curr_kf_idx
        } by {
            if e < before.len() {
                assert(edges[e] == before[e]);
                assert(taken[e] == indices_where(m, takes)[e]);
            }
        }
    }
}

/// A factor is left out for its duration only where that is zero or less; where every answer for
/// its duration is greater, it is usable.
pub proof fn lemma_usable_duration<M, U: Fn(&M) -> u64>(
    duration: U,
    kfs: Seq<Keyframe>,
    order: Seq<usize>,
    factors: Seq<ImuFactor<M>>,
    usable: Seq<bool>,
    f: int,
)
    requires
        tells_usable(duration, kfs, order, factors, usable),
        order.len() <= usize::MAX,
        0 <= f < factors.len(),
        has_place(kfs, order, factors[f].prev_kf_idx),
        has_place(kfs, order, factors[f].curr_kf_idx),
    ensures
        usable[f] ==> exists|bits: u64| #[trigger]
            call_ensures(duration, (&factors[f].preintegrated,), bits) && !(number(bits) is Some
                && number(bits)->0 <= 0),
        !usable[f] ==> exists|bits: u64| #[trigger]
            call_ensures(duration, (&factors[f].preintegrated,), bits) && number(bits) is Some
                && number(bits)->0 <= 0,
{
    lemma_place(kfs, order, factors[f].prev_kf_idx);
    lemma_place(kfs, order, factors[f].curr_kf_idx);
    assert(tells_duration(duration, factors[f].preintegrated, usable[f]));
}

/// A place starts from the velocity of the last edge at it, and from rest where there is none.
pub proof fn lemma_seeded<M>(
    edges: Seq<InitEdge<M>>,
    found: Seq<Vec3F64>,
    at_rest: Seq<Vec3F64>,
    n: nat,
    i: int,
)
    requires
        n <= edges.len(),
        0 <= i < at_rest.len(),
        forall|e: int|
            0 <= e < n ==> (#[trigger] edges[e]).from < at_rest.len() && edges[e].to
                < at_rest.len(),
    ensures
        seeded(edges, found, at_rest, n).len() == at_rest.len(),
        (forall|e: int| 0 <= e < n ==> (#[trigger] edges[e]).from != i && edges[e].to != i)
            ==> seeded(edges, found, at_rest, n)[i] == at_rest[i],
        forall|e: int|
            {
                &&& 0 <= e < n
                &&& (#[trigger] edges[e]).from == i || edges[e].to == i
                &&& forall|h: int|
                    e < h < n ==> (#[trigger] edges[h]).from != i && edges[h].to != i
            } ==> seeded(edges, found, at_rest, n)[i] == found[e],
    decreases n,
{
    if n > 0 {
        lemma_seeded(edges, found, at_rest, (n - 1) as nat, i);
        assert(edges[n - 1].from < at_rest.len() && edges[n - 1].to < at_rest.len());
    }
}

/// A solution is accepted as it is, but for the scale, which is one unless it was solved for:
/// gravity, velocities and biases are those of the solution. It is accepted exactly where the
/// scale is finite and at least a tenth, and both biases are finite.
pub proof fn lemma_accepted_solution(solution: ImuInitResult, is_mono: bool)
    ensures
        at_known_scale(solution, is_mono).gravity_world == solution.gravity_world,
        at_known_scale(solution, is_mono).velocities_world == solution.velocities_world,
        at_known_scale(solution, is_mono).bias == solution.bias,
        is_mono ==> at_known_scale(solution, is_mono).scale == solution.scale,
        !is_mono ==> at_known_scale(solution, is_mono).scale == 0x3ff0_0000_0000_0000,
        is_sane(at_known_scale(solution, is_mono)) <==> {
            &&& is_mono ==> is_finite(number(solution.scale)) && number(solution.scale)->0
                >= 0x3fb9_9999_9999_999a
            &&& is_finite(length_of(solution.bias.gyro))
            &&& is_finite(length_of(solution.bias.accel))
        },
{
}

/// The problem is that of the window: its keyframes are those from the start on, by frame index
/// and then by position; its scale is unknown where the first of them has no stereo depth, or
/// where there is none; and its edges are the usable factors.
pub proof fn lemma_problem<M, U, C, V>(
    map: SlamMap,
    factors: Seq<ImuFactor<M>>,
    start_idx: usize,
    already_initialized: bool,
    duration: U,
    seeds: VelocitySeeds<C, V>,
    at_rest: Vec3F64,
    problem: InitProblem<M>,
) where
    U: Fn(&M) -> u64,
    C: Fn(usize) -> Vec3F64,
    V: Fn(&InitEdge<M>, usize, usize) -> Vec3F64,

    requires
        is_problem(
            map,
            factors,
            start_idx,
            already_initialized,
            duration,
            seeds,
            at_rest,
            problem,
        ),
        map.kfs().len() <= usize::MAX,
    ensures
        forall|p: int|
            0 <= p < map.kfs().len() ==> (#[trigger] problem.window@.contains(p as usize)
                <==> map.kfs()[p].frame.idx >= start_idx),
        forall|a: int, b: int|
            #![trigger problem.window@[a], problem.window@[b]]
            0 <= a < b < problem.window@.len() ==> {
                let (p, q) = (problem.window@[a], problem.window@[b]);
                let (i, j) = (map.kfs()[p as int].frame.idx, map.kfs()[q as int].frame.idx);
                i < j || (i == j && p < q)
            },
        problem.window@.len() == 0 ==> problem.is_mono,
        problem.window@.len() > 0 ==> (problem.is_mono <==> map.kfs()[problem.window@[0] as int].frame.stereo@.len()
            == 0),
        already_initialized ==> forall|i: int|
            0 <= i < problem.window@.len() ==> call_ensures(
                seeds.current,
                (problem.window@[i],),
                #[trigger] problem.velocities@[i],
            ),
        already_initialized ==> problem.velocities@.len() == problem.window@.len(),
        !already_initialized ==> exists|found: Seq<Vec3F64>, rest: Seq<Vec3F64>|
            {
                &&& rest.len() == problem.window@.len()
                &&& forall|i: int| 0 <= i < rest.len() ==> #[trigger] rest[i] == at_rest
                &&& found.len() == problem.edges@.len()
                &&& forall|e: int|
                    0 <= e < found.len() ==> call_ensures(
                        seeds.mean,
                        (
                            &problem.edges@[e],
                            problem.window@[problem.edges@[e].from as int],
                            problem.window@[problem.edges@[e].to as int],
                        ),
                        #[trigger] found[e],
                    )
                &&& problem.velocities@ == #[trigger] seeded(
                    problem.edges@,
                    found,
                    rest,
                    problem.edges@.len(),
                )
            },
        exists|usable: Seq<bool>| #[trigger]
            tells_usable(duration, map.kfs(), problem.window@, factors, usable) && problem.edges@
                == edges_of(map.kfs(), problem.window@, factors, usable, factors.len()),
{
    let window = problem.window@;
    assert forall|p: int| 0 <= p < map.kfs().len() implies (#[trigger] window.contains(p as usize)
        <==> map.kfs()[p].frame.idx >= start_idx) by {
        if window.contains(p as usize) {
            let a = choose|a: int| 0 <= a < window.len() && window[a] == p as usize;
            assert(in_window(map.kfs(), start_idx, window[a] as int));
        }
        if map.kfs()[p].frame.idx >= start_idx {
            assert(in_window(map.kfs(), start_idx, p));
        }
    }
    assert forall|a: int, b: int|
        #![trigger window[a], window[b]]
        0 <= a < b < window.len() implies {
        let (p, q) = (window[a], window[b]);
        let (i, j) = (map.kfs()[p as int].frame.idx, map.kfs()[q as int].frame.idx);
        i < j || (i == j && p < q)
    } by {
        assert(comes_first(map.kfs(), window[a], window[b]));
    }
    if !already_initialized {
        let rest = all_at_rest(window.len(), at_rest);
        assert(rest.len() == window.len());
    }
}

/// An initialization is what the solver made of the problem of the window, with at least as many
/// keyframes as asked for and at least one edge, with the pose of the IMU that is known; only
/// its scale may differ, which is one unless it was solved for.
pub proof fn lemma_initialization_is_solved<M, U, C, V, O>(
    map: SlamMap,
    factors: Seq<ImuFactor<M>>,
    imu_t_bc: Option<Pose3d>,
    start_idx: usize,
    min_keyframes: usize,
    already_initialized: bool,
    duration: U,
    seeds: VelocitySeeds<C, V>,
    at_rest: Vec3F64,
    optimize: O,
    init: ImuInitResult,
) where
    U: Fn(&M) -> u64,
    C: Fn(usize) -> Vec3F64,
    V: Fn(&InitEdge<M>, usize, usize) -> Vec3F64,
    O: Fn(&InitProblem<M>, &Pose3d) -> Option<ImuInitResult>,

    requires
        is_initialization(
            map,
            factors,
            imu_t_bc,
            start_idx,
            min_keyframes,
            already_initialized,
            duration,
            seeds,
            at_rest,
            optimize,
            Some(init),
        ),
    ensures
        imu_t_bc is Some,
        exists|problem: InitProblem<M>, solution: ImuInitResult|
            {
                &&& #[trigger] call_ensures(
                    optimize,
                    (&problem, &imu_t_bc->0),
                    Some(solution),
                )
                &&& is_problem(
                    map,
                    factors,
                    start_idx,
                    already_initialized,
                    duration,
                    seeds,
                    at_rest,
                    problem,
                )
                &&& problem.window@.len() >= min_keyframes
                &&& problem.edges@.len() > 0
                &&& init.gravity_world == solution.gravity_world
                &&& init.velocities_world == solution.velocities_world
                &&& init.bias == solution.bias
                &&& init.scale == (if problem.is_mono {
                    solution.scale
                } else {
                    0x3ff0_0000_0000_0000
                })
            },
{
    let order = choose|order: Seq<usize>|
        {
            &&& #[trigger] is_window_order(map.kfs(), start_idx, order)
            &&& order.len() >= min_keyframes
            &&& exists|problem: InitProblem<M>|
                {
                    &&& problem.window@ == order
                    &&& #[trigger] is_problem(
                        map,
                        factors,
                        start_idx,
                        already_initialized,
                        duration,
                        seeds,
                        at_rest,
                        problem,
                    )
                    &&& problem.edges@.len() > 0
                    &&& is_solution(problem, imu_t_bc->0, optimize, Some(init))
                }
        };
    let problem = choose|problem: InitProblem<M>|
        {
            &&& problem.window@ == order
            &&& #[trigger] is_problem(
                map,
                factors,
                start_idx,
                already_initialized,
                duration,
                seeds,
                at_rest,
                problem,
            )
            &&& problem.edges@.len() > 0
            &&& is_solution(problem, imu_t_bc->0, optimize, Some(init))
        };
    let solved = choose|solved: Option<ImuInitResult>|
        {
            &&& #[trigger] call_ensures(optimize, (&problem, &imu_t_bc->0), solved)
            &&& solved is Some
            &&& is_sane(at_known_scale(solved->0, problem.is_mono))
            &&& init == at_known_scale(solved->0, problem.is_mono)
        };
    assert(solved == Some(solved->0));
    assert(call_ensures(optimize, (&problem, &imu_t_bc->0), Some(solved->0)));
}

/// A window is ready only where it has at least as many keyframes as asked for and the camera,
/// by where it is in the world, has moved far enough from the first of them to the last; and
/// then exactly as the time that the factors ending in the window span is said to be enough.
/// Without a start nothing is ready.
pub proof fn lemma_readiness<M, D>(
    kfs: Seq<Keyframe>,
    factors: Seq<ImuFactor<M>>,
    start: usize,
    min_keyframes: usize,
    min_motion: u64,
    enough_time: D,
    is_ready: bool,
    first: int,
    last: int,
    is_mono: bool,
) where D: Fn(&Vec<usize>, bool) -> bool
    requires
        is_readiness(
            kfs,
            factors,
            Some(start),
            min_keyframes,
            min_motion,
            enough_time,
            is_ready,
        ),
        kfs.len() <= usize::MAX,
        0 <= first < kfs.len(),
        kfs[first].frame.idx >= start,
        forall|j: int| 0 <= j < first ==> (#[trigger] kfs[j]).frame.idx < start,
        is_mono == (kfs[first].frame.stereo@.len() == 0),
        0 <= last < kfs.len(),
        kfs[last].frame.idx >= start,
        forall|j: int| last < j < kfs.len() ==> (#[trigger] kfs[j]).frame.idx < start,
    ensures
        ({
            let enough_keyframes = kfs.filter(|kf: Keyframe| kf.frame.idx >= start).len()
                >= min_keyframes;
            let moved = length_of(
                vector_difference(
                    translation_of(inverse_pose(kfs[last].frame.pose_world_to_cam)),
                    translation_of(inverse_pose(kfs[first].frame.pose_world_to_cam)),
                ),
            );
            let far = at_least(moved, number(min_motion));
            &&& is_ready ==> enough_keyframes && far
            &&& enough_keyframes ==> exists|spanning: Vec<usize>, long: bool|
                {
                    &&& spanning@ == indices_where(
                        factors.len(),
                        |f: int| factors[f].curr_kf_idx >= start,
                    )
                    &&& #[trigger] call_ensures(
                        enough_time,
                        (&spanning, is_mono),
                        long,
                    )
                    &&& is_ready == (long && far)
                }
        }),
{
    let inside = |p: int| in_window(kfs, start, p);
    let window = window_of(kfs, start);
    crate::selection::lemma_indices_where(kfs.len(), inside);
    crate::selection::lemma_indices_where_picks(
        kfs,
        kfs.len(),
        inside,
        |kf: Keyframe| kf.frame.idx >= start,
    );
    assert(kfs.take(kfs.len() as int) =~= kfs);
    assert(inside(first) && inside(last));
    assert(window.contains(first as usize) && window.contains(last as usize));
    let i = choose|i: int| 0 <= i < window.len() && window[i] == first as usize;
    let j = choose|j: int| 0 <= j < window.len() && window[j] == last as usize;
    let (a, b) = (window[0] as int, window[window.len() - 1] as int);
    assert(inside(a) && inside(b));
    assert(kfs[a].frame.idx >= start && kfs[b].frame.idx >= start);
    if i > 0 {
        assert(window[0] < window[i]);
    }
    if j < window.len() - 1 {
        assert(window[j] < window[window.len() - 1]);
    }
    assert(a == first && b == last);
    if window.len() >= min_keyframes {
        let (spanning, long) = choose|spanning: Vec<usize>, long: bool|
            {
                &&& spanning@ == spanning_of(factors, start)
                &&& #[trigger] call_ensures(
                    enough_time,
                    (&spanning, is_mono),
                    long,
                )
                &&& is_ready == (long && has_moved(
                    kfs[first].frame.pose_world_to_cam,
                    kfs[last].frame.pose_world_to_cam,
                    min_motion,
                ))
            };
        assert(call_ensures(
            enough_time,
            (&spanning, is_mono),
            long,
        ));
    }
}

/// Each step of the gyroscope bias adds the change that it is told: without one there is no
/// bias, a change shorter than a hundred-millionth is the last, and any other is followed by
/// the next step, from the sum.
pub proof fn lemma_gyro_step<M, P: Fn(&Vec<InitEdge<M>>, &Vec3F64) -> Option<Vec3F64>>(
    step: P,
    edges: Vec<InitEdge<M>>,
    bias: Vec3F64,
    left: nat,
    found: Option<Vec3F64>,
    said: Option<Vec3F64>,
)
    requires
        is_stepped(step, edges, bias, left, found),
        left > 0,
        forall|answer: Option<Vec3F64>| #[trigger]
            call_ensures(step, (&edges, &bias), answer) ==> answer == said,
    ensures
        match said {
            None => found is None,
            Some(change) => {
                let short = length_of(change) is Some && length_of(change)->0
                    < 0x3e45_798e_e230_8c3a;
                &&& short ==> found == Some(vector_sum(bias, change))
                &&& !short ==> is_stepped(
                    step,
                    edges,
                    vector_sum(bias, change),
                    (left - 1) as nat,
                    found,
                )
            },
        },
{
}

/// With no step left the bias is the one arrived at, and it is believed where it is finite and
/// its length is at most one half.
pub proof fn lemma_gyro_end<M, P: Fn(&Vec<InitEdge<M>>, &Vec3F64) -> Option<Vec3F64>>(
    step: P,
    edges: Vec<InitEdge<M>>,
    bias: Vec3F64,
    found: Option<Vec3F64>,
)
    requires
        is_stepped(step, edges, bias, 0, found),
    ensures
        found == Some(bias),
        is_plausible(bias) <==> is_finite(length_of(bias)) && length_of(bias)->0
            <= 0x3fe0_0000_0000_0000,
{
}

/// Where the columns are: three for the velocity of each keyframe, then two for gravity where a
/// direction is known and three otherwise, then three for the accelerometer bias and one for
/// the scale, where they are solved for.
pub proof fn lemma_columns(layout: LinearLayout)
    ensures
        ({
            let gravity = if layout.has_gravity_prior {
                2int
            } else {
                3int
            };
            let bias = if layout.solves_bias {
                3int
            } else {
                0int
            };
            let scale = if layout.solves_scale {
                1int
            } else {
                0int
            };
            &&& forall|kf: int, ax: int| #[trigger] layout.spec_velocity(kf, ax) == 3 * kf + ax
            &&& layout.spec_gravity() == 3 * layout.n_keyframes
            &&& layout.spec_bias() == 3 * layout.n_keyframes + gravity
            &&& layout.spec_scale() == 3 * layout.n_keyframes + gravity + bias
            &&& layout.spec_total() == 3 * layout.n_keyframes + gravity + bias + scale
        }),
{
}

/// The parts of a solution are read from the columns that they were solved in.
pub proof fn lemma_gathered<S>(
    layout: LinearLayout,
    solution: Seq<S>,
    parts: LinearSolution<S>,
)
    requires
        is_gathered(layout, solution, parts),
        solution.len() >= layout.spec_total(),
    ensures
        ({
            let gravity = if layout.has_gravity_prior {
                2int
            } else {
                3int
            };
            let bias = if layout.solves_bias {
                3int
            } else {
                0int
            };
            let n = 3 * layout.n_keyframes;
            &&& parts.velocities@.len() == layout.n_keyframes
            &&& forall|kf: int, ax: int|
                0 <= kf < layout.n_keyframes && 0 <= ax < 3
                    ==> #[trigger] parts.velocities@[kf]@[ax] == solution[3 * kf + ax]
            &&& parts.gravity@.len() == gravity
            &&& forall|g: int| 0 <= g < gravity ==> #[trigger] parts.gravity@[g] == solution[n + g]
            &&& layout.solves_bias ==> parts.accel_bias is Some && forall|i: int|
                0 <= i < 3 ==> #[trigger] parts.accel_bias->0@[i] == solution[n + gravity + i]
            &&& !layout.solves_bias ==> parts.accel_bias is None
            &&& layout.solves_scale ==> parts.scale == Some(solution[n + gravity + bias])
            &&& !layout.solves_scale ==> parts.scale is None
        }),
{
}

/// Every edge has six equations, one after the other: its position along the three axes, and
/// its velocity along the three axes, each with the right-hand side that it came with.
pub proof fn lemma_equations<S, M, P, V, Q>(
    layout: LinearLayout,
    edges: Seq<InitEdge<M>>,
    equations: LinearEquations<P, V, Q>,
    zero: S,
    rows: Seq<Vec<S>>,
    rhs: Seq<S>,
    e: int,
    ax: int,
) where
    P: Fn(&InitEdge<M>, usize) -> LinearTerms<S>,
    V: Fn(&InitEdge<M>, usize) -> LinearTerms<S>,
    Q: Fn(&Vec<Vec<S>>, &Vec<S>) -> Option<Vec<S>>,

    requires
        is_system(layout, edges, equations, zero, rows, rhs, 6 * edges.len() as int),
        0 <= e < edges.len(),
        0 <= ax < 3,
    ensures
        exists|terms: LinearTerms<S>|
            {
                &&& #[trigger] call_ensures(equations.position, (&edges[e], ax as usize), terms)
                &&& rows[6 * e + ax]@ == scattered(layout, edges[e], ax, false, terms, zero)
                &&& rhs[6 * e + ax] == terms.rhs
            },
        exists|terms: LinearTerms<S>|
            {
                &&& #[trigger] call_ensures(equations.velocity, (&edges[e], ax as usize), terms)
                &&& rows[6 * e + 3 + ax]@ == scattered(layout, edges[e], ax, true, terms, zero)
                &&& rhs[6 * e + 3 + ax] == terms.rhs
            },
{
    let r = 6 * e + ax;
    let s = 6 * e + 3 + ax;
    assert(r / 6 == e && r % 6 == ax && r % 3 == ax);
    assert(s / 6 == e && s % 6 == 3 + ax && s % 3 == ax);
    assert(is_equation(layout, edges, equations, zero, r, rows[r]@, rhs[r]));
    assert(is_equation(layout, edges, equations, zero, s, rows[s]@, rhs[s]));
    let terms = choose|terms: LinearTerms<S>|
        {
            &&& #[trigger] are_terms(equations, edges, r, terms)
            &&& rows[r]@ == scattered(layout, edges[r / 6], r % 3, r % 6 >= 3, terms, zero)
            &&& rhs[r] == terms.rhs
        };
    assert(call_ensures(equations.position, (&edges[e], ax as usize), terms));
    let others = choose|terms: LinearTerms<S>|
        {
            &&& #[trigger] are_terms(equations, edges, s, terms)
            &&& rows[s]@ == scattered(layout, edges[s / 6], s % 3, s % 6 >= 3, terms, zero)
            &&& rhs[s] == terms.rhs
        };
    assert(call_ensures(equations.velocity, (&edges[e], ax as usize), others));
}

} // verus!
