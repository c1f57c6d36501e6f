//! Bundle adjustment by Schur-complement reduction: what is free, how the free variables are
//! numbered, and what comes out.
//!
//! Each step builds the Hessian in block form
//!
//! ```text
//!     H = [ A   B  ]    A: pose blocks (block-diagonal),
//!         [ Bt  C  ]    C: point blocks (block-diagonal),
//!                       B: pose-point cross terms (sparse).
//! ```
//!
//! and solves the reduced camera system; points are recovered by back-substitution. The
//! arithmetic of a step is the caller's; the layout tells it which block a pose or a point
//! has, and which observations join a point to free poses.

use crate::levenberg_marquardt::{
    can_step, levenberg_marquardt, lm_from, LmKernel, LmOutcome, LmStep,
};
use crate::selection::count_set;
use kornia_3d::pose::Pose3d;
use kornia_algebra::Vec3F64;
use vstd::prelude::*;

verus! {

/// What the layout reads of an observation: which pose sees which point, and which of them
/// is held.
#[derive(Debug, Clone, Copy, PartialEq, Eq)]
pub struct BaEdge {
    pub pose_idx: usize,
    pub point_idx: usize,
    pub fixed_pose: bool,
    pub fixed_point: bool,
}

/// Numbers of the free ones among a list of variables.
#[derive(Debug)]
pub struct FreeIndex {
    /// The number of each variable, where it is free.
    pub local: Vec<Option<usize>>,
    /// How many are free.
    pub count: usize,
}

/// How the reduced system is laid out.
#[derive(Debug)]
pub struct SchurLayout {
    pub poses: FreeIndex,
    pub points: FreeIndex,
    /// For each free point, the observations that join it to a free pose, in order.
    pub by_point: Vec<Vec<usize>>,
}

/// A prior on a free pose. `Q` is the type of priors.
#[derive(Debug, Clone, Copy)]
pub struct ActivePrior<Q> {
    /// The pose that the prior is on.
    pub pose_idx: usize,
    /// The number of that pose among the free ones.
    pub local: usize,
    pub prior: Q,
}

/// What a step of bundle adjustment goes by.
#[derive(Debug)]
pub struct SchurProblem<Q> {
    pub layout: SchurLayout,
    /// The priors on free poses, in the order of the poses.
    pub priors: Vec<ActivePrior<Q>>,
}

/// Errors specific to Schur bundle adjustment. `E` tells why a system could not be solved.
#[derive(Debug)]
pub enum SchurBaError<E> {
    /// Linear system is rank-deficient: Cholesky failed.
    CholeskyFailed(E),
    /// No free variables after applying anchors.
    NoFreeVariables,
    /// There is not one prior per pose.
    PriorCount {
        priors: usize,
        poses: usize,
    },
}

/// Poses and points after bundle adjustment.
#[derive(Debug)]
pub struct SchurBaResult {
    pub poses: Vec<Pose3d>,
    pub points: Vec<Vec3F64>,
    pub iterations: usize,
    pub converged: bool,
}

/// Both ends of the observation exist.
pub open spec fn in_range(edge: BaEdge, n_poses: nat, n_points: nat) -> bool {
    edge.pose_idx < n_poses && edge.point_idx < n_points
}

/// Pose `i` is free: an observation sees it without holding it.
pub open spec fn pose_is_free(edges: Seq<BaEdge>, n_poses: nat, n_points: nat, i: int) -> bool {
    exists|e: int|
        0 <= e < edges.len() && in_range(#[trigger] edges[e], n_poses, n_points)
            && edges[e].pose_idx == i && !edges[e].fixed_pose
}

/// Point `i` is free: an observation sees it without holding it.
pub open spec fn point_is_free(edges: Seq<BaEdge>, n_poses: nat, n_points: nat, i: int) -> bool {
    exists|e: int|
        0 <= e < edges.len() && in_range(#[trigger] edges[e], n_poses, n_points)
            && edges[e].point_idx == i && !edges[e].fixed_point
}

/// `index` numbers the flagged ones in order.
pub open spec fn numbers_flags(index: FreeIndex, flags: Seq<bool>) -> bool {
    &&& index.count == count_set(flags)
    &&& index.local@.len() == flags.len()
    &&& forall|i: int|
        0 <= i < flags.len() ==> #[trigger] index.local@[i] == (if flags[i] {
            Some(count_set(flags.take(i)) as usize)
        } else {
            None
        })
}

/// The flags of the free poses.
pub open spec fn free_poses(edges: Seq<BaEdge>, n_poses: nat, n_points: nat) -> Seq<bool> {
    Seq::new(n_poses, |i: int| pose_is_free(edges, n_poses, n_points, i))
}

/// The flags of the free points.
pub open spec fn free_points(edges: Seq<BaEdge>, n_poses: nat, n_points: nat) -> Seq<bool> {
    Seq::new(n_points, |i: int| point_is_free(edges, n_poses, n_points, i))
}

/// Observation `e` joins the free point with number `j` to a free pose.
pub open spec fn joins(
    edges: Seq<BaEdge>,
    poses: Seq<Option<usize>>,
    points: Seq<Option<usize>>,
    j: int,
    e: int,
) -> bool {
    &&& in_range(edges[e], poses.len(), points.len())
    &&& poses[edges[e].pose_idx as int] is Some
    &&& points[edges[e].point_idx as int] == Some(j as usize)
}

/// `layout` is the layout of the reduced system.
pub open spec fn is_layout(
    layout: SchurLayout,
    edges: Seq<BaEdge>,
    n_poses: nat,
    n_points: nat,
) -> bool {
    &&& numbers_flags(layout.poses, free_poses(edges, n_poses, n_points))
    &&& numbers_flags(layout.points, free_points(edges, n_poses, n_points))
    &&& is_grouped(layout, edges)
}

/// The observations of each free point are listed with it.
pub open spec fn is_grouped(layout: SchurLayout, edges: Seq<BaEdge>) -> bool {
    &&& layout.by_point@.len() == layout.points.count
    &&& forall|j: int|
        0 <= j < layout.points.count ==> #[trigger] layout.by_point@[j]@
            == crate::selection::indices_where(
            edges.len(),
            |e: int| joins(edges, layout.poses.local@, layout.points.local@, j, e),
        )
}

proof fn lemma_count_set_step(flags: Seq<bool>, i: int)
    requires
        0 <= i < flags.len(),
    ensures
        count_set(flags.take(i + 1)) == count_set(flags.take(i)) + (if flags[i] {
            1nat
        } else {
            0nat
        }),
{
    assert(flags.take(i + 1).drop_last() =~= flags.take(i));
    assert(flags.take(i + 1).last() == flags[i]);
}

proof fn lemma_count_set_monotonic(flags: Seq<bool>, i: int, j: int)
    requires
        0 <= i <= j <= flags.len(),
    ensures
        count_set(flags.take(i)) <= count_set(flags.take(j)),
        count_set(flags.take(i)) <= i,
    decreases i + j,
{
    if i < j {
        lemma_count_set_monotonic(flags, i, j - 1);
        lemma_count_set_step(flags, j - 1);
    } else if i > 0 {
        lemma_count_set_monotonic(flags, i - 1, i - 1);
        lemma_count_set_step(flags, i - 1);
    }
}

/// The numbers are those below the count, each given once, in the order of the variables.
pub proof fn lemma_numbers_are_dense(index: FreeIndex, flags: Seq<bool>)
    requires
        numbers_flags(index, flags),
    ensures
        forall|i: int|
            0 <= i < flags.len() && (#[trigger] index.local@[i]) is Some ==> index.local@[i]->0
                < index.count,
        forall|i: int, j: int|
            0 <= i < j < flags.len() && (#[trigger] index.local@[i]) is Some && (
            #[trigger] index.local@[j]) is Some ==> index.local@[i]->0 < index.local@[j]->0,
        forall|n: usize| n < index.count ==> #[trigger] index.local@.contains(Some(n)),
{
    assert(flags.take(flags.len() as int) =~= flags);
    assert forall|i: int, j: int|
        0 <= i < j <= flags.len() && (#[trigger] index.local@[i]) is Some implies index.local@[i]->0
        < #[trigger] count_set(flags.take(j)) by {
        lemma_count_set_step(flags, i);
        lemma_count_set_monotonic(flags, i + 1, j);
        lemma_count_set_monotonic(flags, i, i);
    }
    assert forall|i: int| 0 <= i < flags.len() && (#[trigger] index.local@[i]) is Some implies index.local@[i]->0
        < index.count by {
        assert(count_set(flags.take(flags.len() as int)) == index.count);
    }
    assert forall|i: int, j: int|
        0 <= i < j < flags.len() && (#[trigger] index.local@[i]) is Some && (
        #[trigger] index.local@[j]) is Some implies index.local@[i]->0 < index.local@[j]->0 by {
        lemma_count_set_monotonic(flags, j, flags.len() as int);
        assert(index.local@[i]->0 < count_set(flags.take(j)));
    }
    assert forall|n: usize| n < index.count implies #[trigger] index.local@.contains(
        Some(n),
    ) by {
        lemma_number_given(flags, n as nat, flags.len() as int);
        let i = choose|i: int|
            0 <= i < flags.len() && flags[i] && #[trigger] count_set(flags.take(i)) == n;
        assert(index.local@[i] == Some(n));
        assert(index.local@.contains(index.local@[i]));
    }
}

proof fn lemma_number_given(flags: Seq<bool>, n: nat, len: int)
    requires
        0 <= len <= flags.len(),
        n < count_set(flags.take(len)),
    ensures
        exists|i: int| 0 <= i < len && flags[i] && #[trigger] count_set(flags.take(i)) == n,
    decreases len,
{
    if len == 0 {
        assert(flags.take(0) =~= Seq::empty());
    } else {
        lemma_count_set_step(flags, len - 1);
        if n < count_set(flags.take(len - 1)) {
            lemma_number_given(flags, n, len - 1);
        } else {
            assert(flags[len - 1] && count_set(flags.take(len - 1)) == n);
        }
    }
}

/// Numbers the flagged ones in order.
fn number_flags(flags: &Vec<bool>) -> (index: FreeIndex)
    ensures
        numbers_flags(index, flags@),
{
    let mut local: Vec<Option<usize>> = Vec::new();
    let mut count: usize = 0;
    let mut i: usize = 0;
    assert(flags@.take(0) =~= Seq::empty());
    while i < flags.len()
        invariant
            i <= flags@.len(),
            count == count_set(flags@.take(i as int)),
            count <= i,
            local@.len() == i,
            forall|h: int|
                0 <= h < i ==> #[trigger] local@[h] == (if flags@[h] {
                    Some(count_set(flags@.take(h)) as usize)
                } else {
                    None
                }),
        decreases flags@.len() - i,
    {
        proof {
            lemma_count_set_step(flags@, i as int);
        }
        if flags[i] {
            local.push(Some(count));
            count += 1;
        } else {
            local.push(None);
        }
        i += 1;
    }
    assert(flags@.take(i as int) =~= flags@);
    FreeIndex { local, count }
}

/// The flags of the free poses and points.
fn flag_free(edges: &[BaEdge], n_poses: usize, n_points: usize) -> (flags: (Vec<bool>, Vec<bool>))
    ensures
        flags.0@ == free_poses(edges@, n_poses as nat, n_points as nat),
        flags.1@ == free_points(edges@, n_poses as nat, n_points as nat),
{
    let mut poses: Vec<bool> = vec![false; n_poses];
    let mut points: Vec<bool> = vec![false; n_points];
    let mut e: usize = 0;
    while e < edges.len()
        invariant
            e <= edges@.len(),
            poses@.len() == n_poses,
            points@.len() == n_points,
            forall|i: int|
                0 <= i < n_poses ==> (#[trigger] poses@[i] <==> exists|h: int|
                    0 <= h < e && in_range(#[trigger] edges@[h], n_poses as nat, n_points as nat)
                        && edges@[h].pose_idx == i && !edges@[h].fixed_pose),
            forall|i: int|
                0 <= i < n_points ==> (#[trigger] points@[i] <==> exists|h: int|
                    0 <= h < e && in_range(#[trigger] edges@[h], n_poses as nat, n_points as nat)
                        && edges@[h].point_idx == i && !edges@[h].fixed_point),
        decreases edges@.len() - e,
    {
        let edge = &edges[e];
        let ghost poses0 = poses@;
        let ghost points0 = points@;
        if edge.pose_idx < n_poses && edge.point_idx < n_points {
            if !edge.fixed_pose {
                poses.set(edge.pose_idx, true);
            }
            if !edge.fixed_point {
                points.set(edge.point_idx, true);
            }
        }
        assert forall|i: int| 0 <= i < n_poses implies (#[trigger] poses@[i] <==> exists|h: int|
            0 <= h < e + 1 && in_range(#[trigger] edges@[h], n_poses as nat, n_points as nat)
                && edges@[h].pose_idx == i && !edges@[h].fixed_pose) by {
            assert(poses0[i] <==> exists|h: int|
                0 <= h < e && in_range(#[trigger] edges@[h], n_poses as nat, n_points as nat)
                    && edges@[h].pose_idx == i && !edges@[h].fixed_pose);
            let now = edges@[e as int];
        }
        assert forall|i: int| 0 <= i < n_points implies (#[trigger] points@[i] <==> exists|h: int|
            0 <= h < e + 1 && in_range(#[trigger] edges@[h], n_poses as nat, n_points as nat)
                && edges@[h].point_idx == i && !edges@[h].fixed_point) by {
            assert(points0[i] <==> exists|h: int|
                0 <= h < e && in_range(#[trigger] edges@[h], n_poses as nat, n_points as nat)
                    && edges@[h].point_idx == i && !edges@[h].fixed_point);
            let now = edges@[e as int];
        }
        e += 1;
    }
    assert(poses@ =~= free_poses(edges@, n_poses as nat, n_points as nat));
    assert(points@ =~= free_points(edges@, n_poses as nat, n_points as nat));
    (poses, points)
}

/// Lists the observations of each free point.
fn group_by_point(edges: &[BaEdge], poses: &FreeIndex, points: &FreeIndex) -> (by_point: Vec<
    Vec<usize>,
>)
    requires
        forall|i: int|
            0 <= i < points.local@.len() && (#[trigger] points.local@[i]) is Some
                ==> points.local@[i]->0 < points.count,
    ensures
        by_point@.len() == points.count,
        forall|j: int|
            0 <= j < points.count ==> #[trigger] by_point@[j]@ == crate::selection::indices_where(
                edges@.len(),
                |e: int| joins(edges@, poses.local@, points.local@, j, e),
            ),
{
    let mut by_point: Vec<Vec<usize>> = Vec::new();
    let mut p: usize = 0;
    while p < points.count
        invariant
            p <= points.count,
            by_point@.len() == p,
            forall|j: int| 0 <= j < p ==> #[trigger] by_point@[j]@ == Seq::<usize>::empty(),
        decreases points.count - p,
    {
        by_point.push(Vec::new());
        p += 1;
    }
    let mut e: usize = 0;
    while e < edges.len()
        invariant
            e <= edges@.len(),
            by_point@.len() == points.count,
            forall|i: int|
                0 <= i < points.local@.len() && (#[trigger] points.local@[i]) is Some
                    ==> points.local@[i]->0 < points.count,
            forall|j: int|
                0 <= j < points.count ==> #[trigger] by_point@[j]@
                    == crate::selection::indices_where(
                    e as nat,
                    |e: int| joins(edges@, poses.local@, points.local@, j, e),
                ),
        decreases edges@.len() - e,
    {
        let edge = &edges[e];
        let ghost before = by_point@;
        if edge.pose_idx < poses.local.len() && edge.point_idx < points.local.len()
            && poses.local[edge.pose_idx].is_some() {
            if let Some(j) = points.local[edge.point_idx] {
                by_point[j].push(e);
            }
        }
        assert forall|j: int| 0 <= j < points.count implies #[trigger] by_point@[j]@
            == crate::selection::indices_where(
            (e + 1) as nat,
            |e: int| joins(edges@, poses.local@, points.local@, j, e),
        ) by {
            assert(before[j]@ == crate::selection::indices_where(
                e as nat,
                |e: int| joins(edges@, poses.local@, points.local@, j, e),
            ));
        }
        e += 1;
    }
    by_point
}

/// The layout of the reduced system.
pub fn schur_layout(edges: &[BaEdge], n_poses: usize, n_points: usize) -> (layout: SchurLayout)
    ensures
        is_layout(layout, edges@, n_poses as nat, n_points as nat),
{
    let (free_poses, free_points) = flag_free(edges, n_poses, n_points);
    let poses = number_flags(&free_poses);
    let points = number_flags(&free_points);
    proof {
        lemma_numbers_are_dense(points, free_points@);
    }
    let by_point = group_by_point(edges, &poses, &points);
    SchurLayout { poses, points, by_point }
}

/// `packed` holds what `read` gives of the state for what is free, and what was there for
/// what is not.
pub open spec fn is_packed<A, T, G: Fn(&T, usize) -> A>(
    packed: Seq<A>,
    given: Seq<A>,
    local: Seq<Option<usize>>,
    state: T,
    read: G,
) -> bool {
    &&& packed.len() == given.len()
    &&& forall|i: int|
        0 <= i < given.len() ==> if local[i] is Some {
            call_ensures(read, (&state, i as usize), #[trigger] packed[i])
        } else {
            packed[i] == given[i]
        }
}

fn pack<A: Copy, T, G: Fn(&T, usize) -> A>(
    given: &[A],
    local: &Vec<Option<usize>>,
    state: &T,
    read: &G,
) -> (packed: Vec<A>)
    requires
        given@.len() == local@.len(),
        forall|state: &T, i: usize| call_requires(*read, (state, i)),
    ensures
        is_packed(packed@, given@, local@, *state, *read),
{
    let mut packed: Vec<A> = Vec::new();
    let mut i: usize = 0;
    while i < given.len()
        invariant
            i <= given@.len() == local@.len(),
            forall|state: &T, i: usize| call_requires(*read, (state, i)),
            packed@.len() == i,
            forall|h: int|
                0 <= h < i ==> if local@[h] is Some {
                    call_ensures(*read, (state, h as usize), #[trigger] packed@[h])
                } else {
                    packed@[h] == given@[h]
                },
        decreases given@.len() - i,
    {
        if local[i].is_some() {
            let value = read(state, i);
            packed.push(value);
        } else {
            packed.push(given[i]);
        }
        i += 1;
    }
    packed
}

/// The priors on those of the first `n` poses that are free.
pub open spec fn priors_on<Q>(
    priors: Seq<Option<Q>>,
    local: Seq<Option<usize>>,
    n: nat,
) -> Seq<ActivePrior<Q>>
    decreases n,
{
    if n == 0 {
        Seq::empty()
    } else {
        let before = priors_on(priors, local, (n - 1) as nat);
        if priors[n - 1] is Some && local[n - 1] is Some {
            before.push(
                ActivePrior {
                    pose_idx: (n - 1) as usize,
                    local: local[n - 1]->0,
                    prior: priors[n - 1]->0,
                },
            )
        } else {
            before
        }
    }
}

/// The priors on free poses, if any were given.
pub open spec fn active_priors<Q>(
    priors: Option<Seq<Option<Q>>>,
    local: Seq<Option<usize>>,
) -> Seq<ActivePrior<Q>> {
    match priors {
        None => Seq::empty(),
        Some(priors) => priors_on(priors, local, priors.len()),
    }
}

/// The priors as a sequence.
pub open spec fn listed_priors<Q>(priors: Option<&[Option<Q>]>) -> Option<Seq<Option<Q>>> {
    match priors {
        None => None,
        Some(priors) => Some(priors@),
    }
}

fn select_priors<Q: Copy>(priors: Option<&[Option<Q>]>, local: &Vec<Option<usize>>) -> (active: Vec<
    ActivePrior<Q>,
>)
    requires
        priors is Some ==> priors->0@.len() == local@.len(),
    ensures
        active@ == active_priors(listed_priors(priors), local@),
{
    let mut active: Vec<ActivePrior<Q>> = Vec::new();
    if let Some(given) = priors {
        let mut i: usize = 0;
        while i < given.len()
            invariant
                i <= given@.len() == local@.len(),
                active@ == priors_on(given@, local@, i as nat),
            decreases given@.len() - i,
        {
            if let Some(prior) = given[i] {
                if let Some(number) = local[i] {
                    active.push(ActivePrior { pose_idx: i, local: number, prior });
                }
            }
            i += 1;
        }
    }
    active
}

proof fn lemma_priors_on<Q>(
    first: Seq<Option<Q>>,
    second: Seq<Option<Q>>,
    local: Seq<Option<usize>>,
    n: nat,
)
    requires
        forall|i: int| 0 <= i < n && (#[trigger] local[i]) is Some ==> first[i] == second[i],
    ensures
        priors_on(first, local, n) == priors_on(second, local, n),
    decreases n,
{
    if n > 0 {
        lemma_priors_on(first, second, local, (n - 1) as nat);
        assert(local[n - 1] is Some ==> first[n - 1] == second[n - 1]);
    }
}

proof fn lemma_absent_priors<Q>(priors: Seq<Option<Q>>, local: Seq<Option<usize>>, n: nat)
    requires
        forall|i: int| 0 <= i < n ==> (#[trigger] priors[i]) is None,
    ensures
        priors_on(priors, local, n) == Seq::<ActivePrior<Q>>::empty(),
    decreases n,
{
    if n > 0 {
        lemma_absent_priors(priors, local, (n - 1) as nat);
        assert(priors[n - 1] is None);
    }
}

/// How the poses and points of a state are read.
pub struct SchurReader<A, B> {
    /// A pose of the state.
    pub pose: A,
    /// A point of the state.
    pub point: B,
}

/// `result` is what the outcome of the loop says of the poses and points.
pub open spec fn is_read_from<T, E, A, B>(
    poses: Seq<Pose3d>,
    points: Seq<Vec3F64>,
    layout: SchurLayout,
    outcome: LmOutcome<T, E>,
    reader: SchurReader<A, B>,
    result: Result<SchurBaResult, SchurBaError<E>>,
) -> bool where A: Fn(&T, usize) -> Pose3d, B: Fn(&T, usize) -> Vec3F64 {
    match outcome {
        LmOutcome::Failed(error) => result == Result::<SchurBaResult, _>::Err(
            SchurBaError::<E>::CholeskyFailed(error),
        ),
        LmOutcome::Finished { state, iterations, converged } => {
            &&& result is Ok
            &&& is_packed(
                result->Ok_0.poses@,
                poses,
                layout.poses.local@,
                state,
                reader.pose,
            )
            &&& is_packed(
                result->Ok_0.points@,
                points,
                layout.points.local@,
                state,
                reader.point,
            )
            &&& result->Ok_0.iterations == iterations
            &&& result->Ok_0.converged == converged
        },
    }
}

/// Robust losses that bundle adjustment can be asked for.
#[derive(Debug, Clone, Copy, PartialEq, Eq)]
pub enum LossKind {
    /// The squared residual.
    Identity,
    Huber,
    Cauchy,
    Tukey,
}

/// Settings of bundle adjustment that are not numbers with a fraction.
#[derive(Debug, Clone, Copy, PartialEq, Eq)]
pub struct SchurParams {
    pub max_iterations: usize,
    /// Not implemented: every setting is treated as the squared residual.
    pub robust: LossKind,
}

/// `result` is what bundle adjustment comes to.
pub open spec fn is_schur_result<Q, T, L, E, S, R, W, A, B>(
    poses: Seq<Pose3d>,
    points: Seq<Vec3F64>,
    edges: Seq<BaEdge>,
    priors: Option<Seq<Option<Q>>>,
    params: SchurParams,
    start: T,
    initial_lambda: L,
    kernel: LmKernel<S, R, W>,
    reader: SchurReader<A, B>,
    result: Result<SchurBaResult, SchurBaError<E>>,
) -> bool where
    S: Fn(&SchurProblem<Q>, &T, &L) -> LmStep<T, E>,
    R: Fn(&L) -> (L, bool),
    W: Fn(&L) -> L,
    A: Fn(&T, usize) -> Pose3d,
    B: Fn(&T, usize) -> Vec3F64,
 {
    if priors is Some && priors->0.len() != poses.len() {
        result == Result::<SchurBaResult, _>::Err(
            SchurBaError::<E>::PriorCount {
                priors: priors->0.len() as usize,
                poses: poses.len() as usize,
            },
        )
    } else if count_set(free_poses(edges, poses.len(), points.len())) == 0 {
        result == Result::<SchurBaResult, _>::Err(SchurBaError::<E>::NoFreeVariables)
    } else {
        exists|problem: SchurProblem<Q>, outcome: LmOutcome<T, E>|
            {
                &&& is_layout(problem.layout, edges, poses.len(), points.len())
                &&& problem.priors@ == active_priors(priors, problem.layout.poses.local@)
                &&& #[trigger] lm_from(
                    kernel,
                    problem,
                    start,
                    initial_lambda,
                    0,
                    params.max_iterations as nat,
                    outcome,
                )
                &&& is_read_from(poses, points, problem.layout, outcome, reader, result)
            }
    }
}

/// Bundle adjustment via dense Schur-complement reduction.
///
/// Respects the `fixed_pose` and `fixed_point` flags on each observation: a pose or a point
/// is free where an observation sees it without holding it; all others come back as they
/// were given. Robust losses are not implemented: the loss is the squared residual, whatever
/// is asked for.
pub fn bundle_adjust_schur<Q: Copy, T, L, E, S, R, W, A, B>(
    poses: &[Pose3d],
    points: &[Vec3F64],
    edges: &[BaEdge],
    params: SchurParams,
    start: T,
    initial_lambda: L,
    kernel: &LmKernel<S, R, W>,
    reader: &SchurReader<A, B>,
) -> (result: Result<SchurBaResult, SchurBaError<E>>) where
    S: Fn(&SchurProblem<Q>, &T, &L) -> LmStep<T, E>,
    R: Fn(&L) -> (L, bool),
    W: Fn(&L) -> L,
    A: Fn(&T, usize) -> Pose3d,
    B: Fn(&T, usize) -> Vec3F64,

    requires
        forall|problem: SchurProblem<Q>| #[trigger]
            can_step::<_, T, L, E, S, R, W>(*kernel, problem),
        forall|state: &T, i: usize| call_requires(reader.pose, (state, i)),
        forall|state: &T, i: usize| call_requires(reader.point, (state, i)),
    ensures
        is_schur_result(
            poses@,
            points@,
            edges@,
            None::<Seq<Option<Q>>>,
            params,
            start,
            initial_lambda,
            *kernel,
            *reader,
            result,
        ),
{
    bundle_adjust_schur_with_priors(
        poses,
        points,
        edges,
        None,
        params,
        start,
        initial_lambda,
        kernel,
        reader,
    )
}

/// Bundle adjustment via dense Schur-complement reduction with optional priors on poses.
///
/// There is one prior or none for each pose. Poses that are not free have no parameters; any
/// prior on them is ignored.
pub fn bundle_adjust_schur_with_priors<Q: Copy, T, L, E, S, R, W, A, B>(
    poses: &[Pose3d],
    points: &[Vec3F64],
    edges: &[BaEdge],
    priors: Option<&[Option<Q>]>,
    params: SchurParams,
    start: T,
    initial_lambda: L,
    kernel: &LmKernel<S, R, W>,
    reader: &SchurReader<A, B>,
) -> (result: Result<SchurBaResult, SchurBaError<E>>) where
    S: Fn(&SchurProblem<Q>, &T, &L) -> LmStep<T, E>,
    R: Fn(&L) -> (L, bool),
    W: Fn(&L) -> L,
    A: Fn(&T, usize) -> Pose3d,
    B: Fn(&T, usize) -> Vec3F64,

    requires
        forall|problem: SchurProblem<Q>| #[trigger]
            can_step::<_, T, L, E, S, R, W>(*kernel, problem),
        forall|state: &T, i: usize| call_requires(reader.pose, (state, i)),
        forall|state: &T, i: usize| call_requires(reader.point, (state, i)),
    ensures
        is_schur_result(
            poses@,
            points@,
            edges@,
            listed_priors(priors),
            params,
            start,
            initial_lambda,
            *kernel,
            *reader,
            result,
        ),
{
    if let Some(given) = priors {
        if given.len() != poses.len() {
            return Err(SchurBaError::PriorCount { priors: given.len(), poses: poses.len() });
        }
    }
    let layout = schur_layout(edges, poses.len(), points.len());
    if layout.poses.count == 0 {
        return Err(SchurBaError::NoFreeVariables);
    }
    let active = select_priors(priors, &layout.poses.local);
    let problem = SchurProblem { layout, priors: active };
    assert(can_step::<_, T, L, E, S, R, W>(*kernel, problem));
    let outcome = levenberg_marquardt(kernel, &problem, start, initial_lambda, params.max_iterations);
    let ghost said = outcome;
    assert(lm_from(
        *kernel,
        problem,
        start,
        initial_lambda,
        0,
        params.max_iterations as nat,
        said,
    ));
    match outcome {
        LmOutcome::Failed(error) => Err(SchurBaError::CholeskyFailed(error)),
        LmOutcome::Finished { state, iterations, converged } => {
            let out_poses = pack(poses, &problem.layout.poses.local, &state, &reader.pose);
            let out_points = pack(points, &problem.layout.points.local, &state, &reader.point);
            Ok(SchurBaResult { poses: out_poses, points: out_points, iterations, converged })
        },
    }
}

/// The loss that is asked for has no effect: settings that differ in nothing else admit the
/// same results.
pub proof fn lemma_loss_has_no_effect<Q, T, L, E, S, R, W, A, B>(
    poses: Seq<Pose3d>,
    points: Seq<Vec3F64>,
    edges: Seq<BaEdge>,
    priors: Option<Seq<Option<Q>>>,
    params: SchurParams,
    robust: LossKind,
    start: T,
    initial_lambda: L,
    kernel: LmKernel<S, R, W>,
    reader: SchurReader<A, B>,
    result: Result<SchurBaResult, SchurBaError<E>>,
) where
    S: Fn(&SchurProblem<Q>, &T, &L) -> LmStep<T, E>,
    R: Fn(&L) -> (L, bool),
    W: Fn(&L) -> L,
    A: Fn(&T, usize) -> Pose3d,
    B: Fn(&T, usize) -> Vec3F64,

    ensures
        is_schur_result(
            poses,
            points,
            edges,
            priors,
            params,
            start,
            initial_lambda,
            kernel,
            reader,
            result,
        ) <==> is_schur_result(
            poses,
            points,
            edges,
            priors,
            (SchurParams { robust, ..params }),
            start,
            initial_lambda,
            kernel,
            reader,
            result,
        ),
{
    let other = SchurParams { robust, ..params };
    assert(other.max_iterations == params.max_iterations);
}

/// Poses and points that no observation leaves free come back as they were given, and as
/// many come back as were given.
pub proof fn lemma_fixed_come_back<Q, T, L, E, S, R, W, A, B>(
    poses: Seq<Pose3d>,
    points: Seq<Vec3F64>,
    edges: Seq<BaEdge>,
    priors: Option<Seq<Option<Q>>>,
    params: SchurParams,
    start: T,
    initial_lambda: L,
    kernel: LmKernel<S, R, W>,
    reader: SchurReader<A, B>,
    result: SchurBaResult,
) where
    S: Fn(&SchurProblem<Q>, &T, &L) -> LmStep<T, E>,
    R: Fn(&L) -> (L, bool),
    W: Fn(&L) -> L,
    A: Fn(&T, usize) -> Pose3d,
    B: Fn(&T, usize) -> Vec3F64,

    requires
        is_schur_result(
            poses,
            points,
            edges,
            priors,
            params,
            start,
            initial_lambda,
            kernel,
            reader,
            Result::<SchurBaResult, SchurBaError<E>>::Ok(result),
        ),
    ensures
        result.poses@.len() == poses.len(),
        result.points@.len() == points.len(),
        result.iterations <= params.max_iterations,
        forall|i: int|
            0 <= i < poses.len() && !pose_is_free(edges, poses.len(), points.len(), i)
                ==> #[trigger] result.poses@[i] == poses[i],
        forall|i: int|
            0 <= i < points.len() && !point_is_free(edges, poses.len(), points.len(), i)
                ==> #[trigger] result.points@[i] == points[i],
{
    let (problem, outcome) = choose|problem: SchurProblem<Q>, outcome: LmOutcome<T, E>|
        {
            &&& is_layout(problem.layout, edges, poses.len(), points.len())
            &&& problem.priors@ == active_priors(priors, problem.layout.poses.local@)
            &&& #[trigger] lm_from(
                kernel,
                problem,
                start,
                initial_lambda,
                0,
                params.max_iterations as nat,
                outcome,
            )
            &&& is_read_from(
                poses,
                points,
                problem.layout,
                outcome,
                reader,
                Result::<SchurBaResult, SchurBaError<E>>::Ok(result),
            )
        };
    crate::levenberg_marquardt::lemma_lm_iterations(
        kernel,
        problem,
        start,
        initial_lambda,
        0,
        params.max_iterations as nat,
        outcome,
    );
    assert forall|i: int|
        0 <= i < poses.len() && !pose_is_free(
            edges,
            poses.len(),
            points.len(),
            i,
        ) implies #[trigger] result.poses@[i] == poses[i] by {
        assert(problem.layout.poses.local@[i] is None);
    }
    assert forall|i: int|
        0 <= i < points.len() && !point_is_free(
            edges,
            poses.len(),
            points.len(),
            i,
        ) implies #[trigger] result.points@[i] == points[i] by {
        assert(problem.layout.points.local@[i] is None);
    }
}

/// Priors make no difference where they agree on the poses that are free: bundle adjustment
/// comes to the same results. In particular a prior on a held pose is ignored.
pub proof fn lemma_priors_on_held_poses_are_ignored<Q, T, L, E, S, R, W, A, B>(
    poses: Seq<Pose3d>,
    points: Seq<Vec3F64>,
    edges: Seq<BaEdge>,
    first: Seq<Option<Q>>,
    second: Seq<Option<Q>>,
    params: SchurParams,
    start: T,
    initial_lambda: L,
    kernel: LmKernel<S, R, W>,
    reader: SchurReader<A, B>,
    result: Result<SchurBaResult, SchurBaError<E>>,
) where
    S: Fn(&SchurProblem<Q>, &T, &L) -> LmStep<T, E>,
    R: Fn(&L) -> (L, bool),
    W: Fn(&L) -> L,
    A: Fn(&T, usize) -> Pose3d,
    B: Fn(&T, usize) -> Vec3F64,

    requires
        first.len() == poses.len(),
        second.len() == poses.len(),
        forall|i: int|
            0 <= i < poses.len() && pose_is_free(edges, poses.len(), points.len(), i)
                ==> #[trigger] first[i] == second[i],
    ensures
        is_schur_result(
            poses,
            points,
            edges,
            Some(first),
            params,
            start,
            initial_lambda,
            kernel,
            reader,
            result,
        ) == is_schur_result(
            poses,
            points,
            edges,
            Some(second),
            params,
            start,
            initial_lambda,
            kernel,
            reader,
            result,
        ),
{
    assert forall|layout: SchurLayout| #[trigger]
        is_layout(layout, edges, poses.len(), points.len()) implies active_priors(
        Some(first),
        layout.poses.local@,
    ) == active_priors(Some(second), layout.poses.local@) by {
        let flags = free_poses(edges, poses.len(), points.len());
        let local = layout.poses.local@;
        assert forall|i: int| 0 <= i < poses.len() && (#[trigger] local[i]) is Some implies first[i]
            == second[i] by {
            assert(flags[i]);
        }
        lemma_priors_on(first, second, local, poses.len());
    }
    if is_schur_result(
        poses,
        points,
        edges,
        Some(first),
        params,
        start,
        initial_lambda,
        kernel,
        reader,
        result,
    ) {
        if count_set(free_poses(edges, poses.len(), points.len())) > 0 {
            let (problem, outcome) = choose|problem: SchurProblem<Q>, outcome: LmOutcome<T, E>|
                {
                    &&& is_layout(problem.layout, edges, poses.len(), points.len())
                    &&& problem.priors@ == active_priors(Some(first), problem.layout.poses.local@)
                    &&& #[trigger] lm_from(
                        kernel,
                        problem,
                        start,
                        initial_lambda,
                        0,
                        params.max_iterations as nat,
                        outcome,
                    )
                    &&& is_read_from(poses, points, problem.layout, outcome, reader, result)
                };
            assert(problem.priors@ == active_priors(Some(second), problem.layout.poses.local@));
        }
        assert(is_schur_result(
            poses,
            points,
            edges,
            Some(second),
            params,
            start,
            initial_lambda,
            kernel,
            reader,
            result,
        ));
    }
    if is_schur_result(
        poses,
        points,
        edges,
        Some(second),
        params,
        start,
        initial_lambda,
        kernel,
        reader,
        result,
    ) {
        if count_set(free_poses(edges, poses.len(), points.len())) > 0 {
            let (problem, outcome) = choose|problem: SchurProblem<Q>, outcome: LmOutcome<T, E>|
                {
                    &&& is_layout(problem.layout, edges, poses.len(), points.len())
                    &&& problem.priors@ == active_priors(Some(second), problem.layout.poses.local@)
                    &&& #[trigger] lm_from(
                        kernel,
                        problem,
                        start,
                        initial_lambda,
                        0,
                        params.max_iterations as nat,
                        outcome,
                    )
                    &&& is_read_from(poses, points, problem.layout, outcome, reader, result)
                };
            assert(problem.priors@ == active_priors(Some(first), problem.layout.poses.local@));
        }
        assert(is_schur_result(
            poses,
            points,
            edges,
            Some(first),
            params,
            start,
            initial_lambda,
            kernel,
            reader,
            result,
        ));
    }
}

/// Priors that are all absent are as good as none: bundle adjustment comes to the same
/// results.
pub proof fn lemma_absent_priors_are_none<Q, T, L, E, S, R, W, A, B>(
    poses: Seq<Pose3d>,
    points: Seq<Vec3F64>,
    edges: Seq<BaEdge>,
    priors: Seq<Option<Q>>,
    params: SchurParams,
    start: T,
    initial_lambda: L,
    kernel: LmKernel<S, R, W>,
    reader: SchurReader<A, B>,
    result: Result<SchurBaResult, SchurBaError<E>>,
) where
    S: Fn(&SchurProblem<Q>, &T, &L) -> LmStep<T, E>,
    R: Fn(&L) -> (L, bool),
    W: Fn(&L) -> L,
    A: Fn(&T, usize) -> Pose3d,
    B: Fn(&T, usize) -> Vec3F64,

    requires
        priors.len() == poses.len(),
        forall|i: int| 0 <= i < poses.len() ==> (#[trigger] priors[i]) is None,
    ensures
        is_schur_result(
            poses,
            points,
            edges,
            Some(priors),
            params,
            start,
            initial_lambda,
            kernel,
            reader,
            result,
        ) == is_schur_result(
            poses,
            points,
            edges,
            None::<Seq<Option<Q>>>,
            params,
            start,
            initial_lambda,
            kernel,
            reader,
            result,
        ),
{
    assert forall|layout: SchurLayout| #[trigger]
        is_layout(layout, edges, poses.len(), points.len()) implies active_priors(
        Some(priors),
        layout.poses.local@,
    ) == active_priors(None::<Seq<Option<Q>>>, layout.poses.local@) by {
        lemma_absent_priors(priors, layout.poses.local@, poses.len());
    }
    if is_schur_result(
        poses,
        points,
        edges,
        Some(priors),
        params,
        start,
        initial_lambda,
        kernel,
        reader,
        result,
    ) {
        if count_set(free_poses(edges, poses.len(), points.len())) > 0 {
            let (problem, outcome) = choose|problem: SchurProblem<Q>, outcome: LmOutcome<T, E>|
                {
                    &&& is_layout(problem.layout, edges, poses.len(), points.len())
                    &&& problem.priors@ == active_priors(Some(priors), problem.layout.poses.local@)
                    &&& #[trigger] lm_from(
                        kernel,
                        problem,
                        start,
                        initial_lambda,
                        0,
                        params.max_iterations as nat,
                        outcome,
                    )
                    &&& is_read_from(poses, points, problem.layout, outcome, reader, result)
                };
            assert(problem.priors@ == active_priors(None::<Seq<Option<Q>>>, problem.layout.poses.local@));
        }
        assert(is_schur_result(
            poses,
            points,
            edges,
            None::<Seq<Option<Q>>>,
            params,
            start,
            initial_lambda,
            kernel,
            reader,
            result,
        ));
    }
    if is_schur_result(
        poses,
        points,
        edges,
        None::<Seq<Option<Q>>>,
        params,
        start,
        initial_lambda,
        kernel,
        reader,
        result,
    ) {
        if count_set(free_poses(edges, poses.len(), points.len())) > 0 {
            let (problem, outcome) = choose|problem: SchurProblem<Q>, outcome: LmOutcome<T, E>|
                {
                    &&& is_layout(problem.layout, edges, poses.len(), points.len())
                    &&& problem.priors@ == active_priors(None::<Seq<Option<Q>>>, problem.layout.poses.local@)
                    &&& #[trigger] lm_from(
                        kernel,
                        problem,
                        start,
                        initial_lambda,
                        0,
                        params.max_iterations as nat,
                        outcome,
                    )
                    &&& is_read_from(poses, points, problem.layout, outcome, reader, result)
                };
            assert(problem.priors@ == active_priors(Some(priors), problem.layout.poses.local@));
        }
        assert(is_schur_result(
            poses,
            points,
            edges,
            Some(priors),
            params,
            start,
            initial_lambda,
            kernel,
            reader,
            result,
        ));
    }
}

/// A single keyframe state for visual-inertial bundle adjustment: pose, world-frame velocity
/// and IMU bias. `B` is the type of biases.
#[derive(Debug)]
pub struct ViBaKeyframe<B> {
    /// World-to-camera pose.
    pub pose: Pose3d,
    /// Velocity in world frame (m/s).
    pub velocity: Vec3F64,
    /// IMU bias estimate at this keyframe.
    pub bias: B,
    /// If true, pose, velocity and bias are held fixed (used for the first keyframe
    /// as the gauge anchor, or for marginalised frames).
    pub fixed: bool,
}

impl<B: Copy> Copy for ViBaKeyframe<B> {

}

impl<B: Copy> Clone for ViBaKeyframe<B> {
    fn clone(&self) -> (copy: ViBaKeyframe<B>)
        ensures
            copy == *self,
    {
        *self
    }
}

/// What is estimated of a keyframe.
#[derive(Debug)]
pub struct ViBaState<B> {
    /// World-to-camera pose.
    pub pose: Pose3d,
    /// Velocity in world frame (m/s).
    pub velocity: Vec3F64,
    /// IMU bias.
    pub bias: B,
}

/// An IMU edge connecting two keyframes. `M` is the type of preintegrated measurements.
#[derive(Debug)]
pub struct ImuEdge<M> {
    pub from_idx: usize,
    pub to_idx: usize,
    /// Preintegrated measurements between the two keyframes.
    pub preintegrated: M,
}

/// Errors specific to visual-inertial bundle adjustment.
#[derive(Debug)]
pub enum ViBaError<E> {
    /// Reduced system is rank-deficient: Cholesky failed.
    CholeskyFailed(E),
    /// All keyframe variables are fixed.
    NoFreeVariables,
    /// An IMU edge names a keyframe that does not exist.
    ImuEdgeOutOfRange(usize, usize),
}

/// How the reduced visual-inertial system is laid out.
#[derive(Debug)]
pub struct ViLayout {
    pub keyframes: FreeIndex,
    /// Points are numbered in the order in which the observations first see them.
    pub points: FreeIndex,
    /// For each free point, the observations that join it to a free keyframe, in order.
    pub by_point: Vec<Vec<usize>>,
    /// The IMU edges with a free keyframe at an end, in order.
    pub imu_edges: Vec<usize>,
}

/// Output of visual-inertial bundle adjustment. `C` is the type of costs.
#[derive(Debug)]
pub struct ViBaResult<B, C> {
    pub keyframes: Vec<ViBaKeyframe<B>>,
    pub points: Vec<Vec3F64>,
    pub iterations: usize,
    pub converged: bool,
    pub final_cost: C,
}

/// An observation or an IMU edge names keyframe `i`.
pub open spec fn is_touched<M>(edges: Seq<BaEdge>, imu_edges: Seq<ImuEdge<M>>, i: int) -> bool {
    ||| exists|e: int| 0 <= e < edges.len() && (#[trigger] edges[e]).pose_idx == i
    ||| exists|e: int|
        0 <= e < imu_edges.len() && ((#[trigger] imu_edges[e]).from_idx == i || imu_edges[e].to_idx
            == i)
}

/// The flags of the free keyframes: those that are not fixed and that something names.
pub open spec fn free_keyframes<B, M>(
    keyframes: Seq<ViBaKeyframe<B>>,
    edges: Seq<BaEdge>,
    imu_edges: Seq<ImuEdge<M>>,
) -> Seq<bool> {
    Seq::new(
        keyframes.len(),
        |i: int| is_touched(edges, imu_edges, i) && !keyframes[i].fixed,
    )
}

/// The points that the first `n` observations see without holding them, in the order in
/// which they are first seen.
pub open spec fn seen_order(edges: Seq<BaEdge>, n_points: nat, n: nat) -> Seq<usize>
    decreases n,
{
    if n == 0 {
        Seq::empty()
    } else {
        let before = seen_order(edges, n_points, (n - 1) as nat);
        let edge = edges[n - 1];
        if edge.point_idx < n_points && !edge.fixed_point && !before.contains(edge.point_idx) {
            before.push(edge.point_idx)
        } else {
            before
        }
    }
}

/// `index` numbers the points by their place in `order`.
pub open spec fn numbers_order(index: FreeIndex, order: Seq<usize>, n_points: nat) -> bool {
    &&& index.count == order.len()
    &&& index.local@.len() == n_points
    &&& forall|p: int|
        0 <= p < n_points ==> match #[trigger] index.local@[p] {
            Some(l) => l < order.len() && order[l as int] == p,
            None => !order.contains(p as usize),
        }
}

/// IMU edge `e` has a free keyframe at an end.
pub open spec fn is_active<M>(
    imu_edges: Seq<ImuEdge<M>>,
    local: Seq<Option<usize>>,
    e: int,
) -> bool {
    local[imu_edges[e].from_idx as int] is Some || local[imu_edges[e].to_idx as int] is Some
}

/// IMU edge `e` names a keyframe that does not exist.
pub open spec fn is_out_of_range<M>(imu_edges: Seq<ImuEdge<M>>, n_keyframes: nat, e: int) -> bool {
    imu_edges[e].from_idx >= n_keyframes || imu_edges[e].to_idx >= n_keyframes
}

/// `layout` is the layout of the reduced visual-inertial system.
pub open spec fn is_vi_layout<B, M>(
    layout: ViLayout,
    keyframes: Seq<ViBaKeyframe<B>>,
    n_points: nat,
    edges: Seq<BaEdge>,
    imu_edges: Seq<ImuEdge<M>>,
) -> bool {
    &&& numbers_flags(layout.keyframes, free_keyframes(keyframes, edges, imu_edges))
    &&& numbers_order(layout.points, seen_order(edges, n_points, edges.len()), n_points)
    &&& layout.by_point@.len() == layout.points.count
    &&& forall|j: int|
        0 <= j < layout.points.count ==> #[trigger] layout.by_point@[j]@
            == crate::selection::indices_where(
            edges.len(),
            |e: int| joins(edges, layout.keyframes.local@, layout.points.local@, j, e),
        )
    &&& layout.imu_edges@ == crate::selection::indices_where(
        imu_edges.len(),
        |e: int| is_active(imu_edges, layout.keyframes.local@, e),
    )
}

/// Flags the free keyframes.
fn flag_free_keyframes<B, M>(
    keyframes: &[ViBaKeyframe<B>],
    edges: &[BaEdge],
    imu_edges: &[ImuEdge<M>],
) -> (flags: Vec<bool>)
    ensures
        flags@ == free_keyframes(keyframes@, edges@, imu_edges@),
{
    let n: usize = keyframes.len();
    let mut touched: Vec<bool> = vec![false; n];
    let mut e: usize = 0;
    while e < edges.len()
        invariant
            e <= edges@.len(),
            touched@.len() == n,
            forall|i: int|
                0 <= i < n ==> (#[trigger] touched@[i] <==> exists|h: int|
                    0 <= h < e && (#[trigger] edges@[h]).pose_idx == i),
        decreases edges@.len() - e,
    {
        let ghost before = touched@;
        let pose_idx: usize = edges[e].pose_idx;
        if pose_idx < n {
            touched.set(pose_idx, true);
        }
        assert forall|i: int| 0 <= i < n implies (#[trigger] touched@[i] <==> exists|h: int|
            0 <= h < e + 1 && (#[trigger] edges@[h]).pose_idx == i) by {
            assert(before[i] <==> exists|h: int|
                0 <= h < e && (#[trigger] edges@[h]).pose_idx == i);
            let now = edges@[e as int];
        }
        e += 1;
    }
    let ghost seen = touched@;
    let mut m: usize = 0;
    while m < imu_edges.len()
        invariant
            m <= imu_edges@.len(),
            touched@.len() == n,
            seen.len() == n,
            forall|i: int|
                0 <= i < n ==> (#[trigger] touched@[i] <==> seen[i] || exists|h: int|
                    0 <= h < m && ((#[trigger] imu_edges@[h]).from_idx == i || imu_edges@[h].to_idx
                        == i)),
        decreases imu_edges@.len() - m,
    {
        let ghost before = touched@;
        let from: usize = imu_edges[m].from_idx;
        let to: usize = imu_edges[m].to_idx;
        if from < n {
            touched.set(from, true);
        }
        if to < n {
            touched.set(to, true);
        }
        assert forall|i: int| 0 <= i < n implies (#[trigger] touched@[i] <==> seen[i]
            || exists|h: int|
            0 <= h < m + 1 && ((#[trigger] imu_edges@[h]).from_idx == i || imu_edges@[h].to_idx
                == i)) by {
            assert(before[i] <==> seen[i] || exists|h: int|
                0 <= h < m && ((#[trigger] imu_edges@[h]).from_idx == i || imu_edges@[h].to_idx
                    == i));
            let now = imu_edges@[m as int];
        }
        m += 1;
    }
    let mut flags: Vec<bool> = Vec::new();
    let mut k: usize = 0;
    while k < n
        invariant
            k <= n,
            n == keyframes@.len(),
            touched@.len() == n,
            seen.len() == n,
            flags@.len() == k,
            forall|i: int|
                0 <= i < n ==> (#[trigger] seen[i] <==> exists|h: int|
                    0 <= h < edges@.len() && (#[trigger] edges@[h]).pose_idx == i),
            forall|i: int|
                0 <= i < n ==> (#[trigger] touched@[i] <==> seen[i] || exists|h: int|
                    0 <= h < imu_edges@.len() && ((#[trigger] imu_edges@[h]).from_idx == i
                        || imu_edges@[h].to_idx == i)),
            forall|i: int|
                0 <= i < k ==> #[trigger] flags@[i] == (is_touched(edges@, imu_edges@, i)
                    && !keyframes@[i].fixed),
        decreases n - k,
    {
        let free = touched[k] && !keyframes[k].fixed;
        assert(touched@[k as int] == is_touched(edges@, imu_edges@, k as int)) by {
            assert(seen[k as int] <==> exists|h: int|
                0 <= h < edges@.len() && (#[trigger] edges@[h]).pose_idx == k);
        }
        flags.push(free);
        k += 1;
    }
    assert(flags@ =~= free_keyframes(keyframes@, edges@, imu_edges@));
    flags
}

/// Numbers the free points in the order in which they are first seen.
fn number_seen(edges: &[BaEdge], n_points: usize) -> (index: FreeIndex)
    ensures
        numbers_order(
            index,
            seen_order(edges@, n_points as nat, edges@.len()),
            n_points as nat,
        ),
{
    let mut local: Vec<Option<usize>> = vec![None; n_points];
    let mut count: usize = 0;
    let ghost mut order: Seq<usize> = Seq::empty();
    let mut e: usize = 0;
    while e < edges.len()
        invariant
            e <= edges@.len(),
            order == seen_order(edges@, n_points as nat, e as nat),
            count == order.len(),
            count <= e,
            local@.len() == n_points,
            forall|p: int|
                0 <= p < n_points ==> match #[trigger] local@[p] {
                    Some(l) => l < order.len() && order[l as int] == p,
                    None => !order.contains(p as usize),
                },
        decreases edges@.len() - e,
    {
        let edge = &edges[e];
        let ghost order0 = order;
        let ghost local0 = local@;
        proof {
            order = seen_order(edges@, n_points as nat, (e + 1) as nat);
            if edge.point_idx < n_points {
                let l = local0[edge.point_idx as int];
                if l is Some {
                    assert(order0.contains(order0[l->0 as int]));
                }
            }
        }
        if edge.point_idx < n_points && !edge.fixed_point && local[edge.point_idx].is_none() {
            local.set(edge.point_idx, Some(count));
            count += 1;
            proof {
                assert(order == order0.push(edge.point_idx));
                assert forall|p: int| 0 <= p < n_points implies match #[trigger] local@[p] {
                    Some(l) => l < order.len() && order[l as int] == p,
                    None => !order.contains(p as usize),
                } by {
                    if p != edge.point_idx {
                        assert(local@[p] == local0[p]);
                        if local0[p] is None && order.contains(p as usize) {
                            let i = choose|i: int|
                                0 <= i < order.len() && order[i] == p as usize;
                            if i < order0.len() {
                                assert(order0[i] == p as usize);
                                assert(order0.contains(p as usize));
                            }
                        }
                    }
                }
            }
        }
        e += 1;
    }
    FreeIndex { local, count }
}

/// The first IMU edge that names a keyframe that does not exist.
fn find_out_of_range<M>(imu_edges: &[ImuEdge<M>], n_keyframes: usize) -> (found: Option<usize>)
    ensures
        match found {
            None => forall|e: int|
                0 <= e < imu_edges@.len() ==> !is_out_of_range(
                    imu_edges@,
                    n_keyframes as nat,
                    e,
                ),
            Some(first) => {
                &&& first < imu_edges@.len()
                &&& is_out_of_range(imu_edges@, n_keyframes as nat, first as int)
                &&& forall|e: int|
                    0 <= e < first ==> !is_out_of_range(imu_edges@, n_keyframes as nat, e)
            },
        },
{
    let mut e: usize = 0;
    while e < imu_edges.len()
        invariant
            e <= imu_edges@.len(),
            forall|h: int| 0 <= h < e ==> !is_out_of_range(imu_edges@, n_keyframes as nat, h),
        decreases imu_edges@.len() - e,
    {
        if imu_edges[e].from_idx >= n_keyframes || imu_edges[e].to_idx >= n_keyframes {
            return Some(e);
        }
        e += 1;
    }
    None
}

/// The IMU edges with a free keyframe at an end.
fn active_edges<M>(imu_edges: &[ImuEdge<M>], local: &Vec<Option<usize>>) -> (active: Vec<usize>)
    requires
        forall|e: int| 0 <= e < imu_edges@.len() ==> !is_out_of_range(imu_edges@, local@.len(), e),
    ensures
        active@ == crate::selection::indices_where(
            imu_edges@.len(),
            |e: int| is_active(imu_edges@, local@, e),
        ),
{
    let mut active: Vec<usize> = Vec::new();
    let mut e: usize = 0;
    while e < imu_edges.len()
        invariant
            e <= imu_edges@.len(),
            forall|e: int|
                0 <= e < imu_edges@.len() ==> !is_out_of_range(imu_edges@, local@.len(), e),
            active@ == crate::selection::indices_where(
                e as nat,
                |e: int| is_active(imu_edges@, local@, e),
            ),
        decreases imu_edges@.len() - e,
    {
        assert(!is_out_of_range(imu_edges@, local@.len(), e as int));
        if local[imu_edges[e].from_idx].is_some() || local[imu_edges[e].to_idx].is_some() {
            active.push(e);
        }
        e += 1;
    }
    active
}

/// `packed` holds what `read` gives of the state for the keyframes that are free, and what was
/// there for those that are not. Which are held stays as it was given.
pub open spec fn is_updated<B, T, G: Fn(&T, usize) -> ViBaState<B>>(
    packed: Seq<ViBaKeyframe<B>>,
    given: Seq<ViBaKeyframe<B>>,
    local: Seq<Option<usize>>,
    state: T,
    read: G,
) -> bool {
    &&& packed.len() == given.len()
    &&& forall|i: int|
        0 <= i < given.len() ==> if local[i] is Some {
            &&& call_ensures(
                read,
                (&state, i as usize),
                (ViBaState {
                    pose: packed[i].pose,
                    velocity: packed[i].velocity,
                    bias: packed[i].bias,
                }),
            )
            &&& (#[trigger] packed[i]).fixed == given[i].fixed
        } else {
            packed[i] == given[i]
        }
}

fn update_keyframes<B: Copy, T, G: Fn(&T, usize) -> ViBaState<B>>(
    given: &[ViBaKeyframe<B>],
    local: &Vec<Option<usize>>,
    state: &T,
    read: &G,
) -> (packed: Vec<ViBaKeyframe<B>>)
    requires
        given@.len() == local@.len(),
        forall|state: &T, i: usize| call_requires(*read, (state, i)),
    ensures
        is_updated(packed@, given@, local@, *state, *read),
{
    let mut packed: Vec<ViBaKeyframe<B>> = Vec::new();
    let mut i: usize = 0;
    while i < given.len()
        invariant
            i <= given@.len() == local@.len(),
            forall|state: &T, i: usize| call_requires(*read, (state, i)),
            is_updated(packed@, given@.take(i as int), local@, *state, *read),
        decreases given@.len() - i,
    {
        let ghost before = packed@;
        if local[i].is_some() {
            let found = read(state, i);
            packed.push(
                ViBaKeyframe {
                    pose: found.pose,
                    velocity: found.velocity,
                    bias: found.bias,
                    fixed: given[i].fixed,
                },
            );
        } else {
            packed.push(given[i]);
        }
        i += 1;
        assert forall|h: int| 0 <= h < i implies if local@[h] is Some {
            &&& call_ensures(
                *read,
                (state, h as usize),
                (ViBaState {
                    pose: packed@[h].pose,
                    velocity: packed@[h].velocity,
                    bias: packed@[h].bias,
                }),
            )
            &&& (#[trigger] packed@[h]).fixed == given@.take(i as int)[h].fixed
        } else {
            packed@[h] == given@.take(i as int)[h]
        } by {
            if h < i - 1 {
                assert(before[h] == packed@[h]);
            }
        }
    }
    assert(given@.take(i as int) =~= given@);
    packed
}

/// How the keyframes, the points and the cost of a state are read.
pub struct ViReader<A, P, F> {
    /// A keyframe of the state.
    pub keyframe: A,
    /// A point of the state.
    pub point: P,
    /// The cost of the state.
    pub cost: F,
}

/// `result` is what visual-inertial bundle adjustment comes to.
pub open spec fn is_vi_result<B, M, C, T, L, E, S, R, W, A, P, F>(
    keyframes: Seq<ViBaKeyframe<B>>,
    points: Seq<Vec3F64>,
    edges: Seq<BaEdge>,
    imu_edges: Seq<ImuEdge<M>>,
    max_iterations: usize,
    start: T,
    initial_lambda: L,
    kernel: LmKernel<S, R, W>,
    reader: ViReader<A, P, F>,
    result: Result<ViBaResult<B, C>, ViBaError<E>>,
) -> bool where
    S: Fn(&ViLayout, &T, &L) -> LmStep<T, E>,
    R: Fn(&L) -> (L, bool),
    W: Fn(&L) -> L,
    A: Fn(&T, usize) -> ViBaState<B>,
    P: Fn(&T, usize) -> Vec3F64,
    F: Fn(&T) -> C,
 {
    if count_set(free_keyframes(keyframes, edges, imu_edges)) == 0 {
        result == Result::<ViBaResult<B, C>, _>::Err(ViBaError::<E>::NoFreeVariables)
    } else if exists|e: int|
        0 <= e < imu_edges.len() && is_out_of_range(imu_edges, keyframes.len(), e) {
        exists|e: int|
            {
                &&& 0 <= e < imu_edges.len()
                &&& #[trigger] is_out_of_range(imu_edges, keyframes.len(), e)
                &&& forall|h: int| 0 <= h < e ==> !is_out_of_range(imu_edges, keyframes.len(), h)
                &&& result == Result::<ViBaResult<B, C>, _>::Err(
                    ViBaError::<E>::ImuEdgeOutOfRange(imu_edges[e].from_idx, imu_edges[e].to_idx),
                )
            }
    } else {
        exists|layout: ViLayout, outcome: LmOutcome<T, E>|
            {
                &&& is_vi_layout(layout, keyframes, points.len(), edges, imu_edges)
                &&& #[trigger] lm_from(
                    kernel,
                    layout,
                    start,
                    initial_lambda,
                    0,
                    max_iterations as nat,
                    outcome,
                )
                &&& match outcome {
                    LmOutcome::Failed(error) => result == Result::<ViBaResult<B, C>, _>::Err(
                        ViBaError::<E>::CholeskyFailed(error),
                    ),
                    LmOutcome::Finished { state, iterations, converged } => {
                        &&& result is Ok
                        &&& is_updated(
                            result->Ok_0.keyframes@,
                            keyframes,
                            layout.keyframes.local@,
                            state,
                            reader.keyframe,
                        )
                        &&& is_packed(
                            result->Ok_0.points@,
                            points,
                            layout.points.local@,
                            state,
                            reader.point,
                        )
                        &&& result->Ok_0.iterations == iterations
                        &&& result->Ok_0.converged == converged
                        &&& call_ensures(reader.cost, (&state,), result->Ok_0.final_cost)
                    },
                }
            }
    }
}

/// Visual-inertial bundle adjustment via dense Schur-complement reduction.
///
/// Jointly optimises keyframe poses, velocities, and IMU biases together with 3D landmark
/// positions, connected by both reprojection factors and IMU preintegration factors.
/// Keyframes and points that are not free come back as they were given.
///
/// Fix at least one keyframe (`fixed = true`) to anchor the metric scale and world frame.
/// The first keyframe is the natural choice.
pub fn visual_inertial_bundle_adjust<B: Copy, M, C, T, L, E, S, R, W, A, P, F>(
    keyframes: &[ViBaKeyframe<B>],
    points: &[Vec3F64],
    edges: &[BaEdge],
    imu_edges: &[ImuEdge<M>],
    max_iterations: usize,
    start: T,
    initial_lambda: L,
    kernel: &LmKernel<S, R, W>,
    reader: &ViReader<A, P, F>,
) -> (result: Result<ViBaResult<B, C>, ViBaError<E>>) where
    S: Fn(&ViLayout, &T, &L) -> LmStep<T, E>,
    R: Fn(&L) -> (L, bool),
    W: Fn(&L) -> L,
    A: Fn(&T, usize) -> ViBaState<B>,
    P: Fn(&T, usize) -> Vec3F64,
    F: Fn(&T) -> C,

    requires
        forall|layout: ViLayout| #[trigger] can_step::<_, T, L, E, S, R, W>(*kernel, layout),
        forall|state: &T, i: usize| call_requires(reader.keyframe, (state, i)),
        forall|state: &T, i: usize| call_requires(reader.point, (state, i)),
        forall|state: &T| call_requires(reader.cost, (state,)),
    ensures
        is_vi_result(
            keyframes@,
            points@,
            edges@,
            imu_edges@,
            max_iterations,
            start,
            initial_lambda,
            *kernel,
            *reader,
            result,
        ),
{
    let flags = flag_free_keyframes(keyframes, edges, imu_edges);
    let index = number_flags(&flags);
    if index.count == 0 {
        return Err(ViBaError::NoFreeVariables);
    }
    if let Some(e) = find_out_of_range(imu_edges, keyframes.len()) {
        assert(is_out_of_range(imu_edges@, keyframes@.len(), e as int));
        return Err(ViBaError::ImuEdgeOutOfRange(imu_edges[e].from_idx, imu_edges[e].to_idx));
    }
    let point_index = number_seen(edges, points.len());
    let by_point = group_by_point(edges, &index, &point_index);
    let active = active_edges(imu_edges, &index.local);
    let layout = ViLayout { keyframes: index, points: point_index, by_point, imu_edges: active };
    assert(is_vi_layout(layout, keyframes@, points@.len(), edges@, imu_edges@));
    assert(can_step::<_, T, L, E, S, R, W>(*kernel, layout));
    let outcome = levenberg_marquardt(kernel, &layout, start, initial_lambda, max_iterations);
    let ghost said = outcome;
    assert(lm_from(
        *kernel,
        layout,
        start,
        initial_lambda,
        0,
        max_iterations as nat,
        said,
    ));
    match outcome {
        LmOutcome::Failed(error) => Err(ViBaError::CholeskyFailed(error)),
        LmOutcome::Finished { state, iterations, converged } => {
            let out_keyframes = update_keyframes(
                keyframes,
                &layout.keyframes.local,
                &state,
                &reader.keyframe,
            );
            let out_points = pack(points, &layout.points.local, &state, &reader.point);
            let final_cost = (reader.cost)(&state);
            Ok(
                ViBaResult {
                    keyframes: out_keyframes,
                    points: out_points,
                    iterations,
                    converged,
                    final_cost,
                },
            )
        },
    }
}

/// The order in which points are first seen lists each once, and only free points.
pub proof fn lemma_seen_order(edges: Seq<BaEdge>, n_points: nat, n: nat)
    requires
        n <= edges.len(),
    ensures
        seen_order(edges, n_points, n).len() <= n,
        forall|i: int, j: int|
            0 <= i < j < seen_order(edges, n_points, n).len() ==> seen_order(
                edges,
                n_points,
                n,
            )[i] != seen_order(edges, n_points, n)[j],
        forall|p: usize|
            seen_order(edges, n_points, n).contains(p) <==> p < n_points && exists|e: int|
                0 <= e < n && (#[trigger] edges[e]).point_idx == p && !edges[e].fixed_point,
    decreases n,
{
    if n > 0 {
        let m = (n - 1) as nat;
        lemma_seen_order(edges, n_points, m);
        let before = seen_order(edges, n_points, m);
        let after = seen_order(edges, n_points, n);
        let edge = edges[n - 1];
        assert forall|p: usize|
            after.contains(p) <==> p < n_points && exists|e: int|
                0 <= e < n && (#[trigger] edges[e]).point_idx == p && !edges[e].fixed_point by {
            assert(before.contains(p) <==> p < n_points && exists|e: int|
                0 <= e < m && (#[trigger] edges[e]).point_idx == p && !edges[e].fixed_point);
            if before.contains(p) {
                let i = choose|i: int| 0 <= i < before.len() && before[i] == p;
                assert(after[i] == p);
            }
            if after.contains(p) && !before.contains(p) {
                let i = choose|i: int| 0 <= i < after.len() && after[i] == p;
                if i < before.len() {
                    assert(before[i] == p);
                }
                assert(edges[n - 1].point_idx == p);
            }
            if edge.point_idx == p && p < n_points && !edge.fixed_point {
                if !before.contains(p) {
                    assert(after[before.len() as int] == p);
                }
            }
        }
        assert forall|i: int, j: int| 0 <= i < j < after.len() implies after[i] != after[j] by {
            if j == before.len() {
                assert(before[i] == after[i]);
                assert(before.contains(before[i]));
            }
        }
    }
}

/// Keyframes that are fixed, and keyframes and points that nothing names, come back as they
/// were given, as many come back as were given, and which keyframes are fixed stays the same.
pub proof fn lemma_vi_fixed_come_back<B, M, C, T, L, E, S, R, W, A, P, F>(
    keyframes: Seq<ViBaKeyframe<B>>,
    points: Seq<Vec3F64>,
    edges: Seq<BaEdge>,
    imu_edges: Seq<ImuEdge<M>>,
    max_iterations: usize,
    start: T,
    initial_lambda: L,
    kernel: LmKernel<S, R, W>,
    reader: ViReader<A, P, F>,
    result: ViBaResult<B, C>,
) where
    S: Fn(&ViLayout, &T, &L) -> LmStep<T, E>,
    R: Fn(&L) -> (L, bool),
    W: Fn(&L) -> L,
    A: Fn(&T, usize) -> ViBaState<B>,
    P: Fn(&T, usize) -> Vec3F64,
    F: Fn(&T) -> C,

    requires
        is_vi_result(
            keyframes,
            points,
            edges,
            imu_edges,
            max_iterations,
            start,
            initial_lambda,
            kernel,
            reader,
            Result::<ViBaResult<B, C>, ViBaError<E>>::Ok(result),
        ),
    ensures
        result.keyframes@.len() == keyframes.len(),
        result.points@.len() == points.len(),
        result.iterations <= max_iterations,
        forall|i: int|
            0 <= i < keyframes.len() ==> (#[trigger] result.keyframes@[i]).fixed
                == keyframes[i].fixed,
        forall|i: int|
            0 <= i < keyframes.len() && (keyframes[i].fixed || !is_touched(edges, imu_edges, i))
                ==> #[trigger] result.keyframes@[i] == keyframes[i],
        forall|i: int|
            0 <= i < points.len() && i <= usize::MAX && !seen_order(
                edges,
                points.len(),
                edges.len(),
            ).contains(i as usize) ==> #[trigger] result.points@[i] == points[i],
{
    let (layout, outcome) = choose|layout: ViLayout, outcome: LmOutcome<T, E>|
        {
            &&& is_vi_layout(layout, keyframes, points.len(), edges, imu_edges)
            &&& #[trigger] lm_from(
                kernel,
                layout,
                start,
                initial_lambda,
                0,
                max_iterations as nat,
                outcome,
            )
            &&& outcome matches LmOutcome::Finished { state, iterations, converged }
            &&& is_updated(
                result.keyframes@,
                keyframes,
                layout.keyframes.local@,
                state,
                reader.keyframe,
            )
            &&& is_packed(result.points@, points, layout.points.local@, state, reader.point)
            &&& result.iterations == iterations
            &&& result.converged == converged
        };
    crate::levenberg_marquardt::lemma_lm_iterations(
        kernel,
        layout,
        start,
        initial_lambda,
        0,
        max_iterations as nat,
        outcome,
    );
    assert forall|i: int|
        0 <= i < keyframes.len() && (keyframes[i].fixed || !is_touched(
            edges,
            imu_edges,
            i,
        )) implies #[trigger] result.keyframes@[i] == keyframes[i] by {
        assert(layout.keyframes.local@[i] is None);
    }
    let order = seen_order(edges, points.len(), edges.len());
    assert forall|i: int|
        0 <= i < points.len() && i <= usize::MAX && !order.contains(
            i as usize,
        ) implies #[trigger] result.points@[i] == points[i] by {
        if layout.points.local@[i] is Some {
            let l = layout.points.local@[i]->0;
            assert(order.contains(order[l as int]));
        }
    }
}

/// Every keyframe that is not fixed and that an observation or an IMU edge names comes back
/// with the pose, the velocity and the bias that are read, as one answer, from the state that
/// the optimizer ended with; every point that an observation sees without holding it comes
/// back as read from that state; and the cost is the cost of that state.
pub proof fn lemma_vi_free_take_the_optimum<B, M, C, T, L, E, S, R, W, A, P, F>(
    keyframes: Seq<ViBaKeyframe<B>>,
    points: Seq<Vec3F64>,
    edges: Seq<BaEdge>,
    imu_edges: Seq<ImuEdge<M>>,
    max_iterations: usize,
    start: T,
    initial_lambda: L,
    kernel: LmKernel<S, R, W>,
    reader: ViReader<A, P, F>,
    result: ViBaResult<B, C>,
) where
    S: Fn(&ViLayout, &T, &L) -> LmStep<T, E>,
    R: Fn(&L) -> (L, bool),
    W: Fn(&L) -> L,
    A: Fn(&T, usize) -> ViBaState<B>,
    P: Fn(&T, usize) -> Vec3F64,
    F: Fn(&T) -> C,

    requires
        is_vi_result(
            keyframes,
            points,
            edges,
            imu_edges,
            max_iterations,
            start,
            initial_lambda,
            kernel,
            reader,
            Result::<ViBaResult<B, C>, ViBaError<E>>::Ok(result),
        ),
    ensures
        exists|layout: ViLayout, state: T|
            {
                &&& is_vi_layout(layout, keyframes, points.len(), edges, imu_edges)
                &&& #[trigger] lm_from(
                    kernel,
                    layout,
                    start,
                    initial_lambda,
                    0,
                    max_iterations as nat,
                    LmOutcome::<T, E>::Finished {
                        state,
                        iterations: result.iterations,
                        converged: result.converged,
                    },
                )
                &&& forall|i: int|
                    0 <= i < keyframes.len() && !keyframes[i].fixed && ((exists|e: int|
                        0 <= e < edges.len() && (#[trigger] edges[e]).pose_idx == i) || (exists|
                        e: int,
                    |
                        0 <= e < imu_edges.len() && ((#[trigger] imu_edges[e]).from_idx == i
                            || imu_edges[e].to_idx == i))) ==> call_ensures(
                        reader.keyframe,
                        (&state, i as usize),
                        (ViBaState {
                            pose: (#[trigger] result.keyframes@[i]).pose,
                            velocity: result.keyframes@[i].velocity,
                            bias: result.keyframes@[i].bias,
                        }),
                    )
                &&& forall|i: int|
                    0 <= i < points.len() && (exists|e: int|
                        0 <= e < edges.len() && (#[trigger] edges[e]).point_idx == i
                            && !edges[e].fixed_point) ==> call_ensures(
                        reader.point,
                        (&state, i as usize),
                        #[trigger] result.points@[i],
                    )
                &&& call_ensures(reader.cost, (&state,), result.final_cost)
            },
{
    let (layout, outcome) = choose|layout: ViLayout, outcome: LmOutcome<T, E>|
        {
            &&& is_vi_layout(layout, keyframes, points.len(), edges, imu_edges)
            &&& #[trigger] lm_from(
                kernel,
                layout,
                start,
                initial_lambda,
                0,
                max_iterations as nat,
                outcome,
            )
            &&& outcome matches LmOutcome::Finished { state, iterations, converged }
            &&& is_updated(
                result.keyframes@,
                keyframes,
                layout.keyframes.local@,
                state,
                reader.keyframe,
            )
            &&& is_packed(result.points@, points, layout.points.local@, state, reader.point)
            &&& result.iterations == iterations
            &&& result.converged == converged
            &&& call_ensures(reader.cost, (&state,), result.final_cost)
        };
    let state = outcome->state;
    let finished = LmOutcome::<T, E>::Finished {
        state,
        iterations: result.iterations,
        converged: result.converged,
    };
    assert(outcome == finished);
    assert(lm_from(
        kernel,
        layout,
        start,
        initial_lambda,
        0,
        max_iterations as nat,
        LmOutcome::<T, E>::Finished {
            state,
            iterations: result.iterations,
            converged: result.converged,
        },
    ));
    lemma_seen_order(edges, points.len(), edges.len());
    let order = seen_order(edges, points.len(), edges.len());
    assert forall|i: int|
        0 <= i < keyframes.len() && !keyframes[i].fixed && ((exists|e: int|
            0 <= e < edges.len() && (#[trigger] edges[e]).pose_idx == i) || (exists|e: int|
            0 <= e < imu_edges.len() && ((#[trigger] imu_edges[e]).from_idx == i
                || imu_edges[e].to_idx == i))) implies call_ensures(
        reader.keyframe,
        (&state, i as usize),
        (ViBaState {
            pose: (#[trigger] result.keyframes@[i]).pose,
            velocity: result.keyframes@[i].velocity,
            bias: result.keyframes@[i].bias,
        }),
    ) by {
        assert(layout.keyframes.local@[i] is Some);
    }
    assert forall|i: int|
        0 <= i < points.len() && (exists|e: int|
            0 <= e < edges.len() && (#[trigger] edges[e]).point_idx == i
                && !edges[e].fixed_point) implies call_ensures(
        reader.point,
        (&state, i as usize),
        #[trigger] result.points@[i],
    ) by {
        let e = choose|e: int|
            0 <= e < edges.len() && (#[trigger] edges[e]).point_idx == i && !edges[e].fixed_point;
        assert(order.contains(edges[e].point_idx));
        assert(layout.points.local@[i] is Some);
    }
}

/// Where the reader gives one keyframe of each state, what comes back of a free keyframe is
/// that of the state that the optimizer ended with: pose, velocity and bias.
pub proof fn lemma_vi_free_pose_is_the_optimum<B, M, C, T, L, E, S, R, W, A, P, F>(
    keyframes: Seq<ViBaKeyframe<B>>,
    points: Seq<Vec3F64>,
    edges: Seq<BaEdge>,
    imu_edges: Seq<ImuEdge<M>>,
    max_iterations: usize,
    start: T,
    initial_lambda: L,
    kernel: LmKernel<S, R, W>,
    reader: ViReader<A, P, F>,
    result: ViBaResult<B, C>,
    of: spec_fn(T, usize) -> ViBaState<B>,
) where
    S: Fn(&ViLayout, &T, &L) -> LmStep<T, E>,
    R: Fn(&L) -> (L, bool),
    W: Fn(&L) -> L,
    A: Fn(&T, usize) -> ViBaState<B>,
    P: Fn(&T, usize) -> Vec3F64,
    F: Fn(&T) -> C,

    requires
        is_vi_result(
            keyframes,
            points,
            edges,
            imu_edges,
            max_iterations,
            start,
            initial_lambda,
            kernel,
            reader,
            Result::<ViBaResult<B, C>, ViBaError<E>>::Ok(result),
        ),
        forall|state: T, i: usize, found: ViBaState<B>| #[trigger]
            call_ensures(reader.keyframe, (&state, i), found) ==> found == of(state, i),
    ensures
        exists|layout: ViLayout, state: T|
            {
                &&& is_vi_layout(layout, keyframes, points.len(), edges, imu_edges)
                &&& #[trigger] lm_from(
                    kernel,
                    layout,
                    start,
                    initial_lambda,
                    0,
                    max_iterations as nat,
                    LmOutcome::<T, E>::Finished {
                        state,
                        iterations: result.iterations,
                        converged: result.converged,
                    },
                )
                &&& forall|i: int|
                    0 <= i < keyframes.len() && !keyframes[i].fixed && ((exists|e: int|
                        0 <= e < edges.len() && (#[trigger] edges[e]).pose_idx == i) || (exists|
                        e: int,
                    |
                        0 <= e < imu_edges.len() && ((#[trigger] imu_edges[e]).from_idx == i
                            || imu_edges[e].to_idx == i))) ==> {
                        &&& (#[trigger] result.keyframes@[i]).pose == of(state, i as usize).pose
                        &&& result.keyframes@[i].velocity == of(state, i as usize).velocity
                        &&& result.keyframes@[i].bias == of(state, i as usize).bias
                    }
            },
{
    lemma_vi_free_take_the_optimum(
        keyframes,
        points,
        edges,
        imu_edges,
        max_iterations,
        start,
        initial_lambda,
        kernel,
        reader,
        result,
    );
}

/// Every pose that an observation of an existing point sees without holding it comes back as
/// read from the state that the optimizer ended with, and so does every point that an
/// observation from an existing pose sees without holding it.
pub proof fn lemma_schur_free_take_the_optimum<Q, T, L, E, S, R, W, A, B>(
    poses: Seq<Pose3d>,
    points: Seq<Vec3F64>,
    edges: Seq<BaEdge>,
    priors: Option<Seq<Option<Q>>>,
    params: SchurParams,
    start: T,
    initial_lambda: L,
    kernel: LmKernel<S, R, W>,
    reader: SchurReader<A, B>,
    result: SchurBaResult,
) where
    S: Fn(&SchurProblem<Q>, &T, &L) -> LmStep<T, E>,
    R: Fn(&L) -> (L, bool),
    W: Fn(&L) -> L,
    A: Fn(&T, usize) -> Pose3d,
    B: Fn(&T, usize) -> Vec3F64,

    requires
        is_schur_result(
            poses,
            points,
            edges,
            priors,
            params,
            start,
            initial_lambda,
            kernel,
            reader,
            Result::<SchurBaResult, SchurBaError<E>>::Ok(result),
        ),
    ensures
        exists|problem: SchurProblem<Q>, state: T|
            {
                &&& is_layout(problem.layout, edges, poses.len(), points.len())
                &&& problem.priors@ == match priors {
                    None => Seq::empty(),
                    Some(priors) => priors_on(
                        priors,
                        problem.layout.poses.local@,
                        priors.len(),
                    ),
                }
                &&& #[trigger] lm_from(
                    kernel,
                    problem,
                    start,
                    initial_lambda,
                    0,
                    params.max_iterations as nat,
                    LmOutcome::<T, E>::Finished {
                        state,
                        iterations: result.iterations,
                        converged: result.converged,
                    },
                )
                &&& forall|i: int|
                    0 <= i < poses.len() && (exists|e: int|
                        0 <= e < edges.len() && (#[trigger] edges[e]).pose_idx == i
                            && edges[e].point_idx < points.len() && !edges[e].fixed_pose)
                        ==> call_ensures(
                        reader.pose,
                        (&state, i as usize),
                        #[trigger] result.poses@[i],
                    )
                &&& forall|i: int|
                    0 <= i < points.len() && (exists|e: int|
                        0 <= e < edges.len() && (#[trigger] edges[e]).point_idx == i
                            && edges[e].pose_idx < poses.len() && !edges[e].fixed_point)
                        ==> call_ensures(
                        reader.point,
                        (&state, i as usize),
                        #[trigger] result.points@[i],
                    )
            },
{
    let (problem, outcome) = choose|problem: SchurProblem<Q>, outcome: LmOutcome<T, E>|
        {
            &&& is_layout(problem.layout, edges, poses.len(), points.len())
            &&& problem.priors@ == active_priors(priors, problem.layout.poses.local@)
            &&& #[trigger] lm_from(
                kernel,
                problem,
                start,
                initial_lambda,
                0,
                params.max_iterations as nat,
                outcome,
            )
            &&& is_read_from(
                poses,
                points,
                problem.layout,
                outcome,
                reader,
                Result::<SchurBaResult, SchurBaError<E>>::Ok(result),
            )
        };
    let state = outcome->state;
    let finished = LmOutcome::<T, E>::Finished {
        state,
        iterations: result.iterations,
        converged: result.converged,
    };
    assert(outcome == finished);
    assert forall|i: int|
        0 <= i < poses.len() && (exists|e: int|
            0 <= e < edges.len() && (#[trigger] edges[e]).pose_idx == i && edges[e].point_idx
                < points.len() && !edges[e].fixed_pose) implies call_ensures(
        reader.pose,
        (&state, i as usize),
        #[trigger] result.poses@[i],
    ) by {
        let e = choose|e: int|
            0 <= e < edges.len() && (#[trigger] edges[e]).pose_idx == i && edges[e].point_idx
                < points.len() && !edges[e].fixed_pose;
        assert(in_range(edges[e], poses.len(), points.len()));
        assert(pose_is_free(edges, poses.len(), points.len(), i));
        assert(problem.layout.poses.local@[i] is Some);
    }
    assert forall|i: int|
        0 <= i < points.len() && (exists|e: int|
            0 <= e < edges.len() && (#[trigger] edges[e]).point_idx == i && edges[e].pose_idx
                < poses.len() && !edges[e].fixed_point) implies call_ensures(
        reader.point,
        (&state, i as usize),
        #[trigger] result.points@[i],
    ) by {
        let e = choose|e: int|
            0 <= e < edges.len() && (#[trigger] edges[e]).point_idx == i && edges[e].pose_idx
                < poses.len() && !edges[e].fixed_point;
        assert(in_range(edges[e], poses.len(), points.len()));
        assert(point_is_free(edges, poses.len(), points.len(), i));
        assert(problem.layout.points.local@[i] is Some);
    }
    assert(lm_from(
        kernel,
        problem,
        start,
        initial_lambda,
        0,
        params.max_iterations as nat,
        LmOutcome::<T, E>::Finished {
            state,
            iterations: result.iterations,
            converged: result.converged,
        },
    ));
}

/// Bundle adjustment is refused where priors are given, but not one per pose; else where no
/// observation between an existing pose and an existing point leaves its pose free; and for no
/// other reason before a system is solved. It fails for want of a solution only with what the
/// optimizer failed with.
pub proof fn lemma_schur_refusals<Q, T, L, E, S, R, W, A, B>(
    poses: Seq<Pose3d>,
    points: Seq<Vec3F64>,
    edges: Seq<BaEdge>,
    priors: Option<Seq<Option<Q>>>,
    params: SchurParams,
    start: T,
    initial_lambda: L,
    kernel: LmKernel<S, R, W>,
    reader: SchurReader<A, B>,
    result: Result<SchurBaResult, SchurBaError<E>>,
) where
    S: Fn(&SchurProblem<Q>, &T, &L) -> LmStep<T, E>,
    R: Fn(&L) -> (L, bool),
    W: Fn(&L) -> L,
    A: Fn(&T, usize) -> Pose3d,
    B: Fn(&T, usize) -> Vec3F64,

    requires
        is_schur_result(
            poses,
            points,
            edges,
            priors,
            params,
            start,
            initial_lambda,
            kernel,
            reader,
            result,
        ),
        poses.len() <= usize::MAX,
        priors is Some ==> priors->0.len() <= usize::MAX,
    ensures
        ({
            let miscounted = priors is Some && priors->0.len() != poses.len();
            let some_free = exists|e: int|
                {
                    &&& 0 <= e < edges.len()
                    &&& (#[trigger] edges[e]).pose_idx < poses.len()
                    &&& edges[e].point_idx < points.len()
                    &&& !edges[e].fixed_pose
                };
            &&& result matches Err(SchurBaError::PriorCount { priors: n, poses: m }) ==> miscounted
                && n == priors->0.len() && m == poses.len()
            &&& miscounted ==> result is Err && result->Err_0 is PriorCount
            &&& result == Result::<SchurBaResult, _>::Err(SchurBaError::<E>::NoFreeVariables)
                <==> !miscounted && !some_free
            &&& result matches Err(SchurBaError::CholeskyFailed(error)) ==> exists|
                problem: SchurProblem<Q>,
            |
                #[trigger]
                lm_from(
                    kernel,
                    problem,
                    start,
                    initial_lambda,
                    0,
                    params.max_iterations as nat,
                    LmOutcome::<T, E>::Failed(error),
                )
        }),
{
    let flags = free_poses(edges, poses.len(), points.len());
    crate::selection::lemma_count_set(flags);
    let some_free = exists|e: int|
        {
            &&& 0 <= e < edges.len()
            &&& (#[trigger] edges[e]).pose_idx < poses.len()
            &&& edges[e].point_idx < points.len()
            &&& !edges[e].fixed_pose
        };
    if some_free {
        let e = choose|e: int|
            {
                &&& 0 <= e < edges.len()
                &&& (#[trigger] edges[e]).pose_idx < poses.len()
                &&& edges[e].point_idx < points.len()
                &&& !edges[e].fixed_pose
            };
        assert(in_range(edges[e], poses.len(), points.len()));
        assert(flags[edges[e].pose_idx as int]);
    } else {
        assert forall|i: int| 0 <= i < flags.len() implies !#[trigger] flags[i] by {
            if pose_is_free(edges, poses.len(), points.len(), i) {
                let e = choose|e: int|
                    0 <= e < edges.len() && in_range(
                        #[trigger] edges[e],
                        poses.len(),
                        points.len(),
                    ) && edges[e].pose_idx == i && !edges[e].fixed_pose;
                assert(edges[e].pose_idx < poses.len());
            }
        }
    }
    if let Err(SchurBaError::CholeskyFailed(error)) = result {
        let (problem, outcome) = choose|problem: SchurProblem<Q>, outcome: LmOutcome<T, E>|
            {
                &&& is_layout(problem.layout, edges, poses.len(), points.len())
                &&& problem.priors@ == active_priors(priors, problem.layout.poses.local@)
                &&& #[trigger] lm_from(
                    kernel,
                    problem,
                    start,
                    initial_lambda,
                    0,
                    params.max_iterations as nat,
                    outcome,
                )
                &&& is_read_from(poses, points, problem.layout, outcome, reader, result)
            };
        assert(outcome == LmOutcome::<T, E>::Failed(error));
    }
}

/// A pose of the reduced system has a number exactly where an observation of an existing point
/// sees it without holding it, and a point where one from an existing pose does; the numbers
/// ascend. The observations listed with a free point are exactly those of it from a free
/// pose, in order.
pub proof fn lemma_layout(
    layout: SchurLayout,
    edges: Seq<BaEdge>,
    n_poses: nat,
    n_points: nat,
)
    requires
        is_layout(layout, edges, n_poses, n_points),
        edges.len() <= usize::MAX,
        n_poses <= usize::MAX,
        n_points <= usize::MAX,
    ensures
        layout.poses.local@.len() == n_poses,
        layout.points.local@.len() == n_points,
        forall|i: int|
            0 <= i < n_poses ==> ((#[trigger] layout.poses.local@[i]) is Some <==> exists|e: int|
                {
                    &&& 0 <= e < edges.len()
                    &&& (#[trigger] edges[e]).pose_idx == i
                    &&& edges[e].point_idx < n_points
                    &&& !edges[e].fixed_pose
                }),
        forall|i: int|
            0 <= i < n_points ==> ((#[trigger] layout.points.local@[i]) is Some <==> exists|e: int|
                {
                    &&& 0 <= e < edges.len()
                    &&& (#[trigger] edges[e]).point_idx == i
                    &&& edges[e].pose_idx < n_poses
                    &&& !edges[e].fixed_point
                }),
        forall|i: int, j: int|
            0 <= i < j < n_poses && layout.poses.local@[i] is Some && layout.poses.local@[j] is Some
                ==> (#[trigger] layout.poses.local@[i])->0 < (#[trigger] layout.poses.local@[j])->0,
        forall|i: int, j: int|
            0 <= i < j < n_points && layout.points.local@[i] is Some
                && layout.points.local@[j] is Some ==> (#[trigger] layout.points.local@[i])->0 < (
            #[trigger] layout.points.local@[j])->0,
        forall|p: int, e: int|
            0 <= p < n_points && 0 <= e < edges.len() && layout.points.local@[p] is Some ==> (
            #[trigger] layout.by_point@[(#[trigger] layout.points.local@[p])->0 as int]@.contains(
                e as usize,
            ) <==> {
                &&& (#[trigger] edges[e]).point_idx == p
                &&& edges[e].pose_idx < n_poses
                &&& layout.poses.local@[edges[e].pose_idx as int] is Some
            }),
        forall|j: int, a: int, b: int|
            0 <= j < layout.points.count && 0 <= a < b < layout.by_point@[j]@.len()
                ==> #[trigger] layout.by_point@[j]@[a] < #[trigger] layout.by_point@[j]@[b],
{
    let poses = free_poses(edges, n_poses, n_points);
    let points = free_points(edges, n_poses, n_points);
    lemma_numbers_are_dense(layout.poses, poses);
    lemma_numbers_are_dense(layout.points, points);
    assert forall|i: int| 0 <= i < n_poses implies ((#[trigger] layout.poses.local@[i]) is Some
        <==> exists|e: int|
        {
            &&& 0 <= e < edges.len()
            &&& (#[trigger] edges[e]).pose_idx == i
            &&& edges[e].point_idx < n_points
            &&& !edges[e].fixed_pose
        }) by {
        if exists|e: int|
            {
                &&& 0 <= e < edges.len()
                &&& (#[trigger] edges[e]).pose_idx == i
                &&& edges[e].point_idx < n_points
                &&& !edges[e].fixed_pose
            } {
            let e = choose|e: int|
                {
                    &&& 0 <= e < edges.len()
                    &&& (#[trigger] edges[e]).pose_idx == i
                    &&& edges[e].point_idx < n_points
                    &&& !edges[e].fixed_pose
                };
            assert(in_range(edges[e], n_poses, n_points));
            assert(poses[i]);
        }
    }
    assert forall|i: int| 0 <= i < n_points implies ((#[trigger] layout.points.local@[i]) is Some
        <==> exists|e: int|
        {
            &&& 0 <= e < edges.len()
            &&& (#[trigger] edges[e]).point_idx == i
            &&& edges[e].pose_idx < n_poses
            &&& !edges[e].fixed_point
        }) by {
        if exists|e: int|
            {
                &&& 0 <= e < edges.len()
                &&& (#[trigger] edges[e]).point_idx == i
                &&& edges[e].pose_idx < n_poses
                &&& !edges[e].fixed_point
            } {
            let e = choose|e: int|
                {
                    &&& 0 <= e < edges.len()
                    &&& (#[trigger] edges[e]).point_idx == i
                    &&& edges[e].pose_idx < n_poses
                    &&& !edges[e].fixed_point
                };
            assert(in_range(edges[e], n_poses, n_points));
            assert(points[i]);
        }
    }
    assert forall|p: int, e: int|
        0 <= p < n_points && 0 <= e < edges.len() && layout.points.local@[p] is Some implies (
    #[trigger] layout.by_point@[(#[trigger] layout.points.local@[p])->0 as int]@.contains(
        e as usize,
    ) <==> {
        &&& (#[trigger] edges[e]).point_idx == p
        &&& edges[e].pose_idx < n_poses
        &&& layout.poses.local@[edges[e].pose_idx as int] is Some
    }) by {
        let j = layout.points.local@[p]->0 as int;
        assert(points[p]);
        let joined = |e: int| joins(edges, layout.poses.local@, layout.points.local@, j, e);
        assert(0 <= j < layout.points.count);
        crate::selection::lemma_indices_where(edges.len(), joined);
        let list = layout.by_point@[j]@;
        assert(list == crate::selection::indices_where(edges.len(), joined));
        if list.contains(e as usize) {
            let a = choose|a: int| 0 <= a < list.len() && list[a] == e as usize;
            assert(joined(list[a] as int));
            let q = edges[e].point_idx as int;
            assert(layout.points.local@[q] == layout.points.local@[p]);
        }
        if joins(edges, layout.poses.local@, layout.points.local@, j, e) {
            assert(joined(e as usize as int));
        }
    }
    assert forall|j: int, a: int, b: int|
        0 <= j < layout.points.count && 0 <= a < b
            < layout.by_point@[j]@.len() implies #[trigger] layout.by_point@[j]@[a]
        < #[trigger] layout.by_point@[j]@[b] by {
        crate::selection::lemma_indices_where(
            edges.len(),
            |e: int| joins(edges, layout.poses.local@, layout.points.local@, j, e),
        );
    }
}

/// The priors of the problem are those given on poses that have a number, each with the pose
/// that it is on and the number of that pose, in the order of the poses.
pub proof fn lemma_active_priors<Q>(priors: Seq<Option<Q>>, local: Seq<Option<usize>>, n: nat)
    requires
        n <= priors.len() <= usize::MAX,
    ensures
        ({
            let active = priors_on(priors, local, n);
            &&& forall|a: int|
                0 <= a < active.len() ==> {
                    let i = (#[trigger] active[a]).pose_idx as int;
                    &&& i < n
                    &&& priors[i] == Some(active[a].prior)
                    &&& local[i] == Some(active[a].local)
                }
            &&& forall|a: int, b: int|
                0 <= a < b < active.len() ==> (#[trigger] active[a]).pose_idx < (
                #[trigger] active[b]).pose_idx
            &&& forall|i: int|
                0 <= i < n && (#[trigger] priors[i]) is Some && local[i] is Some ==> exists|a: int|
                    0 <= a < active.len() && (#[trigger] active[a]).pose_idx == i
        }),
    decreases n,
{
    if n > 0 {
        let m = (n - 1) as nat;
        lemma_active_priors(priors, local, m);
        let before = priors_on(priors, local, m);
        let active = priors_on(priors, local, n);
        assert forall|i: int|
            0 <= i < n && (#[trigger] priors[i]) is Some && local[i] is Some implies exists|a: int|
            0 <= a < active.len() && (#[trigger] active[a]).pose_idx == i by {
            if i < m {
                let a = choose|a: int| 0 <= a < before.len() && (#[trigger] before[a]).pose_idx == i;
                assert(active[a].pose_idx == i);
            } else {
                assert(active[before.len() as int].pose_idx == i);
            }
        }
    }
}

/// Visual-inertial bundle adjustment is refused where every keyframe that an observation or an
/// IMU edge names is fixed, or does not exist; else where an IMU edge names a keyframe that
/// does not exist, with the first such edge; and for no other reason before a system is solved.
/// It fails for want of a solution only with what the optimizer failed with.
pub proof fn lemma_vi_refusals<B, M, C, T, L, E, S, R, W, A, P, F>(
    keyframes: Seq<ViBaKeyframe<B>>,
    points: Seq<Vec3F64>,
    edges: Seq<BaEdge>,
    imu_edges: Seq<ImuEdge<M>>,
    max_iterations: usize,
    start: T,
    initial_lambda: L,
    kernel: LmKernel<S, R, W>,
    reader: ViReader<A, P, F>,
    result: Result<ViBaResult<B, C>, ViBaError<E>>,
) where
    S: Fn(&ViLayout, &T, &L) -> LmStep<T, E>,
    R: Fn(&L) -> (L, bool),
    W: Fn(&L) -> L,
    A: Fn(&T, usize) -> ViBaState<B>,
    P: Fn(&T, usize) -> Vec3F64,
    F: Fn(&T) -> C,

    requires
        is_vi_result(
            keyframes,
            points,
            edges,
            imu_edges,
            max_iterations,
            start,
            initial_lambda,
            kernel,
            reader,
            result,
        ),
        keyframes.len() <= usize::MAX,
    ensures
        ({
            let some_free = exists|i: int|
                {
                    &&& 0 <= i < keyframes.len()
                    &&& !(#[trigger] keyframes[i]).fixed
                    &&& (exists|e: int|
                        0 <= e < edges.len() && (#[trigger] edges[e]).pose_idx == i) || (exists|
                        e: int,
                    |
                        0 <= e < imu_edges.len() && ((#[trigger] imu_edges[e]).from_idx == i
                            || imu_edges[e].to_idx == i))
                };
            let some_outside = exists|e: int|
                0 <= e < imu_edges.len() && ((#[trigger] imu_edges[e]).from_idx >= keyframes.len()
                    || imu_edges[e].to_idx >= keyframes.len());
            &&& result == Result::<ViBaResult<B, C>, _>::Err(ViBaError::<E>::NoFreeVariables)
                <==> !some_free
            &&& result is Err && result->Err_0 is ImuEdgeOutOfRange <==> some_free && some_outside
            &&& result matches Err(ViBaError::ImuEdgeOutOfRange(from, to)) ==> exists|e: int|
                {
                    &&& 0 <= e < imu_edges.len()
                    &&& (#[trigger] imu_edges[e]).from_idx == from
                    &&& imu_edges[e].to_idx == to
                    &&& from >= keyframes.len() || to >= keyframes.len()
                    &&& forall|h: int|
                        0 <= h < e ==> (#[trigger] imu_edges[h]).from_idx < keyframes.len()
                            && imu_edges[h].to_idx < keyframes.len()
                }
            &&& result matches Err(ViBaError::CholeskyFailed(error)) ==> exists|layout: ViLayout|
                #[trigger]
                lm_from(
                    kernel,
                    layout,
                    start,
                    initial_lambda,
                    0,
                    max_iterations as nat,
                    LmOutcome::<T, E>::Failed(error),
                )
        }),
{
    let flags = free_keyframes(keyframes, edges, imu_edges);
    crate::selection::lemma_count_set(flags);
    assert forall|i: int| 0 <= i < keyframes.len() implies #[trigger] flags[i] == (!keyframes[i].fixed
        && ((exists|e: int| 0 <= e < edges.len() && (#[trigger] edges[e]).pose_idx == i) || (exists|
        e: int,
    |
        0 <= e < imu_edges.len() && ((#[trigger] imu_edges[e]).from_idx == i || imu_edges[e].to_idx
            == i)))) by {}
    if count_set(flags) == 0 {
        assert forall|i: int| 0 <= i < keyframes.len() && !(#[trigger] keyframes[i]).fixed implies !((
        exists|e: int| 0 <= e < edges.len() && (#[trigger] edges[e]).pose_idx == i) || (exists|
            e: int,
        |
            0 <= e < imu_edges.len() && ((#[trigger] imu_edges[e]).from_idx == i
                || imu_edges[e].to_idx == i))) by {
            assert(!flags[i]);
        }
    } else {
        let i = choose|i: int| 0 <= i < flags.len() && #[trigger] flags[i];
        assert(!keyframes[i].fixed);
        let n = keyframes.len();
        if exists|e: int|
            0 <= e < imu_edges.len() && ((#[trigger] imu_edges[e]).from_idx >= n
                || imu_edges[e].to_idx >= n) {
            let e = choose|e: int|
                0 <= e < imu_edges.len() && ((#[trigger] imu_edges[e]).from_idx >= n
                    || imu_edges[e].to_idx >= n);
            assert(is_out_of_range(imu_edges, n, e));
        }
        if exists|e: int| 0 <= e < imu_edges.len() && is_out_of_range(imu_edges, n, e) {
            let e = choose|e: int|
                {
                    &&& 0 <= e < imu_edges.len()
                    &&& #[trigger] is_out_of_range(imu_edges, n, e)
                    &&& forall|h: int| 0 <= h < e ==> !is_out_of_range(imu_edges, n, h)
                    &&& result == Result::<ViBaResult<B, C>, _>::Err(
                        ViBaError::<E>::ImuEdgeOutOfRange(
                            imu_edges[e].from_idx,
                            imu_edges[e].to_idx,
                        ),
                    )
                };
            assert(imu_edges[e].from_idx >= n || imu_edges[e].to_idx >= n);
            assert forall|h: int| 0 <= h < e implies (#[trigger] imu_edges[h]).from_idx < n
                && imu_edges[h].to_idx < n by {
                assert(!is_out_of_range(imu_edges, n, h));
            }
        }
    }
    if let Err(ViBaError::CholeskyFailed(error)) = result {
        let (layout, outcome) = choose|layout: ViLayout, outcome: LmOutcome<T, E>|
            {
                &&& is_vi_layout(layout, keyframes, points.len(), edges, imu_edges)
                &&& #[trigger] lm_from(
                    kernel,
                    layout,
                    start,
                    initial_lambda,
                    0,
                    max_iterations as nat,
                    outcome,
                )
                &&& outcome matches LmOutcome::Failed(found)
                &&& found == error
            };
        assert(outcome == LmOutcome::<T, E>::Failed(error));
    }
}

/// In the reduced visual-inertial system a keyframe has a number exactly where it is not fixed
/// and an observation or an IMU edge names it, and a point where an observation sees it without
/// holding it. The IMU edges that take part are exactly those with such a keyframe at an end,
/// in order; and the observations listed with a free point are exactly those of it from such a
/// keyframe, in order.
pub proof fn lemma_vi_layout<B, M>(
    layout: ViLayout,
    keyframes: Seq<ViBaKeyframe<B>>,
    n_points: nat,
    edges: Seq<BaEdge>,
    imu_edges: Seq<ImuEdge<M>>,
)
    requires
        is_vi_layout(layout, keyframes, n_points, edges, imu_edges),
        edges.len() <= usize::MAX,
        imu_edges.len() <= usize::MAX,
        keyframes.len() <= usize::MAX,
        n_points <= usize::MAX,
    ensures
        layout.keyframes.local@.len() == keyframes.len(),
        layout.points.local@.len() == n_points,
        forall|i: int|
            0 <= i < keyframes.len() ==> ((#[trigger] layout.keyframes.local@[i]) is Some <==> {
                &&& !keyframes[i].fixed
                &&& (exists|e: int| 0 <= e < edges.len() && (#[trigger] edges[e]).pose_idx == i)
                    || (exists|e: int|
                    0 <= e < imu_edges.len() && ((#[trigger] imu_edges[e]).from_idx == i
                        || imu_edges[e].to_idx == i))
            }),
        forall|i: int, j: int|
            0 <= i < j < keyframes.len() && layout.keyframes.local@[i] is Some
                && layout.keyframes.local@[j] is Some ==> (
            #[trigger] layout.keyframes.local@[i])->0 < (#[trigger] layout.keyframes.local@[j])->0,
        forall|i: int|
            0 <= i < n_points ==> ((#[trigger] layout.points.local@[i]) is Some <==> exists|e: int|
                0 <= e < edges.len() && (#[trigger] edges[e]).point_idx == i
                    && !edges[e].fixed_point),
        forall|i: int, j: int|
            0 <= i < n_points && 0 <= j < n_points && i != j && layout.points.local@[i] is Some
                && layout.points.local@[j] is Some ==> (#[trigger] layout.points.local@[i])->0 != (
            #[trigger] layout.points.local@[j])->0,
        forall|e: int|
            0 <= e < imu_edges.len() ==> (#[trigger] layout.imu_edges@.contains(e as usize) <==> {
                ||| layout.keyframes.local@[(#[trigger] imu_edges[e]).from_idx as int] is Some
                ||| layout.keyframes.local@[imu_edges[e].to_idx as int] is Some
            }),
        forall|a: int, b: int|
            0 <= a < b < layout.imu_edges@.len() ==> layout.imu_edges@[a] < layout.imu_edges@[b],
        forall|p: int, e: int|
            0 <= p < n_points && 0 <= e < edges.len() && layout.points.local@[p] is Some ==> (
            #[trigger] layout.by_point@[(#[trigger] layout.points.local@[p])->0 as int]@.contains(
                e as usize,
            ) <==> {
                &&& (#[trigger] edges[e]).point_idx == p
                &&& edges[e].pose_idx < keyframes.len()
                &&& layout.keyframes.local@[edges[e].pose_idx as int] is Some
            }),
        forall|j: int, a: int, b: int|
            0 <= j < layout.points.count && 0 <= a < b < layout.by_point@[j]@.len()
                ==> #[trigger] layout.by_point@[j]@[a] < #[trigger] layout.by_point@[j]@[b],
{
    let flags = free_keyframes(keyframes, edges, imu_edges);
    lemma_numbers_are_dense(layout.keyframes, flags);
    assert forall|i: int| 0 <= i < keyframes.len() implies ((
    #[trigger] layout.keyframes.local@[i]) is Some <==> {
        &&& !keyframes[i].fixed
        &&& (exists|e: int| 0 <= e < edges.len() && (#[trigger] edges[e]).pose_idx == i) || (exists|
            e: int,
        |
            0 <= e < imu_edges.len() && ((#[trigger] imu_edges[e]).from_idx == i
                || imu_edges[e].to_idx == i))
    }) by {
        assert(flags[i] == (is_touched(edges, imu_edges, i) && !keyframes[i].fixed));
    }
    let order = seen_order(edges, n_points, edges.len());
    lemma_seen_order(edges, n_points, edges.len());
    assert forall|i: int| 0 <= i < n_points implies ((#[trigger] layout.points.local@[i]) is Some
        <==> exists|e: int|
        0 <= e < edges.len() && (#[trigger] edges[e]).point_idx == i && !edges[e].fixed_point) by {
        match layout.points.local@[i] {
            Some(l) => {
                assert(order.contains(order[l as int]));
                assert(order.contains(i as usize));
            },
            None => {
                assert(!order.contains(i as usize));
            },
        }
    }
    let active = |e: int| is_active(imu_edges, layout.keyframes.local@, e);
    crate::selection::lemma_indices_where(imu_edges.len(), active);
    assert forall|e: int| 0 <= e < imu_edges.len() implies (#[trigger] layout.imu_edges@.contains(
        e as usize,
    ) <==> {
        ||| layout.keyframes.local@[(#[trigger] imu_edges[e]).from_idx as int] is Some
        ||| layout.keyframes.local@[imu_edges[e].to_idx as int] is Some
    }) by {
        let list = layout.imu_edges@;
        if list.contains(e as usize) {
            let a = choose|a: int| 0 <= a < list.len() && list[a] == e as usize;
            assert(active(list[a] as int));
        }
        if is_active(imu_edges, layout.keyframes.local@, e) {
            assert(active(e as usize as int));
        }
    }
    assert forall|p: int, e: int|
        0 <= p < n_points && 0 <= e < edges.len() && layout.points.local@[p] is Some implies (
    #[trigger] layout.by_point@[(#[trigger] layout.points.local@[p])->0 as int]@.contains(
        e as usize,
    ) <==> {
        &&& (#[trigger] edges[e]).point_idx == p
        &&& edges[e].pose_idx < keyframes.len()
        &&& layout.keyframes.local@[edges[e].pose_idx as int] is Some
    }) by {
        let j = layout.points.local@[p]->0 as int;
        let joined = |e: int| joins(edges, layout.keyframes.local@, layout.points.local@, j, e);
        crate::selection::lemma_indices_where(edges.len(), joined);
        let list = layout.by_point@[j]@;
        assert(list == crate::selection::indices_where(edges.len(), joined));
        if list.contains(e as usize) {
            let a = choose|a: int| 0 <= a < list.len() && list[a] == e as usize;
            assert(joined(list[a] as int));
            let q = edges[e].point_idx as int;
            assert(layout.points.local@[q] == layout.points.local@[p]);
        }
        if joins(edges, layout.keyframes.local@, layout.points.local@, j, e) {
            assert(joined(e as usize as int));
        }
    }
    assert forall|j: int, a: int, b: int|
        0 <= j < layout.points.count && 0 <= a < b
            < layout.by_point@[j]@.len() implies #[trigger] layout.by_point@[j]@[a]
        < #[trigger] layout.by_point@[j]@[b] by {
        crate::selection::lemma_indices_where(
            edges.len(),
            |e: int| joins(edges, layout.keyframes.local@, layout.points.local@, j, e),
        );
    }
}

/// Of the first `n` observations one sees point `p` without holding it, and up to that one none
/// sees point `q` without holding it.
pub open spec fn is_seen_before(edges: Seq<BaEdge>, n: nat, p: usize, q: usize) -> bool {
    exists|e: int|
        {
            &&& 0 <= e < n
            &&& (#[trigger] edges[e]).point_idx == p
            &&& !edges[e].fixed_point
            &&& forall|h: int|
                0 <= h <= e && (#[trigger] edges[h]).point_idx == q ==> edges[h].fixed_point
        }
}

/// Points come in the order in which they are first seen without being held.
pub proof fn lemma_seen_first(edges: Seq<BaEdge>, n_points: nat, n: nat)
    requires
        n <= edges.len(),
    ensures
        forall|a: int, b: int|
            0 <= a < b < seen_order(edges, n_points, n).len() ==> #[trigger] is_seen_before(
                edges,
                n,
                seen_order(edges, n_points, n)[a],
                seen_order(edges, n_points, n)[b],
            ),
    decreases n,
{
    if n > 0 {
        let m = (n - 1) as nat;
        lemma_seen_first(edges, n_points, m);
        lemma_seen_order(edges, n_points, m);
        let before = seen_order(edges, n_points, m);
        let order = seen_order(edges, n_points, n);
        assert forall|a: int, b: int| 0 <= a < b < order.len() implies #[trigger] is_seen_before(
            edges,
            n,
            order[a],
            order[b],
        ) by {
            assert(before[a] == order[a]);
            if b < before.len() {
                assert(before[b] == order[b]);
                assert(is_seen_before(edges, m, before[a], before[b]));
            } else {
                assert(before.contains(before[a]));
                let e = choose|e: int|
                    0 <= e < m && (#[trigger] edges[e]).point_idx == before[a]
                        && !edges[e].fixed_point;
                assert(!before.contains(order[b]));
                assert forall|h: int|
                    0 <= h <= e && (#[trigger] edges[h]).point_idx == order[b] implies edges[h].fixed_point by {
                    if !edges[h].fixed_point {
                        assert(before.contains(order[b]));
                    }
                }
            }
        }
    }
}

} // verus!
