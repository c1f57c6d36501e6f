//! Stereo correspondence: per-keypoint matches in a rectified, row-aligned stereo pair.
//!
//! For every left keypoint it searches the same image row of the right view for the best
//! ORB descriptor match within the valid disparity band, then looks for the best place of
//! the left patch around that match by the sum of absolute differences (SAD). Matches whose
//! SAD is a gross outlier (relative to the median) are dropped.
//!
//! ```text
//!   left kp (uL, vL)            right view, same row vL
//!        |                  .---------------------------.
//!        v                  |   *      * <- candidates  |
//!   uR in [uL-maxD, uL]     '---------------------------'
//!        |                          |
//!        +--- best ORB desc ---> uR0  --- SAD subpixel ---> bestuR
//!                                        |
//!                          disparity = uL - bestuR
//!                          depth     = bf / disparity
//! ```
//!
//! The caller supplies the left and right image pyramids (one image per ORB octave) and
//! what has to be computed in floating point: rows, rounded coordinates, the ends of the
//! disparity band, and the place that a parabola through three SADs gives.

use crate::descriptor::{hamming, hamming_distance};
use crate::double::{above, at_least};
use crate::frame::{
    column_bits, columns, count_keypoints, descriptors, descriptors_of, keypoint_count, octaves, octaves_of, Frame,
};
use crate::median::{is_median, upper_median};
use crate::geometry::{y_bits, y_of};
use crate::selection::indices_where;
use crate::single::{is_above, is_at_least, number};
use kornia_algebra::{Vec2F32, Vec3F64};
use kornia_imgproc::features::OrbFeatures;
use vstd::prelude::*;

pub use crate::gray_image::GrayImage;

verus! {

/// ORB descriptor distance upper bound.
pub const TH_HIGH: u32 = 100;

/// ORB descriptor distance lower bound.
pub const TH_LOW: u32 = 50;

/// Half-width of the SAD correlation patch.
pub const SAD_HALF_WINDOW: usize = 5;

/// Width and height of the SAD correlation patch.
pub const SAD_WINDOW: usize = 11;

/// Sliding-search half-range in pixels around the coarse match.
pub const SAD_SEARCH_RANGE: usize = 5;

/// Number of places that the sliding search tries.
pub const SAD_PLACES: usize = 11;

/// Descriptor thresholds of stereo matching.
#[derive(Debug, Clone, Copy, PartialEq, Eq)]
pub struct StereoMatchConfig {
    /// Descriptor distance below which a coarse match is refined to sub-pixel.
    pub th_orb_dist: u32,
    /// Descriptor distance ceiling for the coarse row search.
    pub th_high: u32,
}

impl StereoMatchConfig {
    /// The default descriptor thresholds.
    pub fn new() -> (config: StereoMatchConfig)
        ensures
            config.th_orb_dist == 75,
            config.th_high == 100,
    {
        StereoMatchConfig { th_orb_dist: (TH_HIGH + TH_LOW) / 2, th_high: TH_HIGH }
    }
}

/// What matching reads of a left keypoint.
#[derive(Debug, Clone, Copy, PartialEq, Eq)]
pub struct LeftKeypoint {
    /// Image row.
    pub row: i32,
    /// The least x-coordinate that a match can have in the right image, by its bits: that of
    /// the keypoint less the largest disparity.
    pub min_u: u32,
    /// Column and row at the scale of its octave.
    pub scaled_u: i32,
    pub scaled_v: i32,
}

/// Rows in which a right keypoint can match, bounds included.
#[derive(Debug, Clone, Copy, PartialEq, Eq)]
pub struct RowBand {
    pub first: i32,
    pub last: i32,
}

/// What the sliding search found: the best place, how far it is from the coarse match, and
/// the SADs there and at its two neighbours.
#[derive(Debug, Clone, Copy, PartialEq, Eq)]
pub struct SadOptimum {
    /// Column of the coarse match at the scale of the octave.
    pub start: i32,
    /// Offset of the best place from there.
    pub offset: i32,
    pub before: u32,
    pub best: u32,
    pub after: u32,
}

/// Per-left-keypoint stereo result: the x-coordinate in the right image and the metric
/// depth, or `None` where the keypoint has no stereo match.
#[derive(Debug)]
pub struct StereoMatches {
    pub found: Vec<Option<Vec2F32>>,
}

/// How many entries there are.
pub open spec fn count_found(found: Seq<Option<Vec2F32>>) -> nat
    decreases found.len(),
{
    if found.len() == 0 {
        0
    } else {
        count_found(found.drop_last()) + (if found.last() is Some {
            1nat
        } else {
            0nat
        })
    }
}

impl StereoMatches {
    /// Number of left keypoints with a valid stereo match.
    pub fn num_matched(&self) -> (count: usize)
        ensures
            count == count_found(self.found@),
    {
        let mut count: usize = 0;
        let mut i: usize = 0;
        assert(self.found@.take(0) =~= Seq::empty());
        while i < self.found.len()
            invariant
                i <= self.found@.len(),
                count == count_found(self.found@.take(i as int)),
                count <= i,
            decreases self.found@.len() - i,
        {
            assert(self.found@.take(i + 1).drop_last() =~= self.found@.take(i as int));
            if self.found[i].is_some() {
                count += 1;
            }
            i += 1;
        }
        assert(self.found@.take(i as int) =~= self.found@);
        count
    }
}

/// Distance between two pixel values.
pub open spec fn abs_diff(a: u8, b: u8) -> nat {
    if a >= b {
        (a - b) as nat
    } else {
        (b - a) as nat
    }
}

/// Sum of absolute differences over `n` pixels of row `v`, from two columns on.
pub open spec fn row_sad(
    left: GrayImage<'_>,
    right: GrayImage<'_>,
    v: int,
    ul: int,
    ur: int,
    n: nat,
) -> nat
    decreases n,
{
    if n == 0 {
        0
    } else {
        row_sad(left, right, v, ul, ur, (n - 1) as nat) + abs_diff(
            left.at(v, ul + n - 1),
            right.at(v, ur + n - 1),
        )
    }
}

/// Sum of absolute differences over `n` rows of the patch, from row `v` on.
pub open spec fn block_sad(
    left: GrayImage<'_>,
    right: GrayImage<'_>,
    v: int,
    ul: int,
    ur: int,
    n: nat,
) -> nat
    decreases n,
{
    if n == 0 {
        0
    } else {
        block_sad(left, right, v, ul, ur, (n - 1) as nat) + row_sad(
            left,
            right,
            v + n - 1,
            ul,
            ur,
            SAD_WINDOW as nat,
        )
    }
}

/// Sum of absolute differences of the patches around two places in the same row.
pub open spec fn patch_sad(
    left: GrayImage<'_>,
    right: GrayImage<'_>,
    v: int,
    ul: int,
    ur: int,
) -> nat {
    block_sad(
        left,
        right,
        v - SAD_HALF_WINDOW,
        ul - SAD_HALF_WINDOW,
        ur - SAD_HALF_WINDOW,
        SAD_WINDOW as nat,
    )
}

/// The SADs at the places of the sliding search around column `ur`.
pub open spec fn sliding_sads(
    left: GrayImage<'_>,
    right: GrayImage<'_>,
    v: int,
    ul: int,
    ur: int,
) -> Seq<nat> {
    Seq::new(
        SAD_PLACES as nat,
        |i: int| patch_sad(left, right, v, ul, ur - SAD_SEARCH_RANGE + i),
    )
}

/// Position of the first of the smallest among the first `n` numbers.
pub open spec fn first_min(s: Seq<nat>, n: nat) -> int
    decreases n,
{
    if n <= 1 {
        0
    } else {
        let best = first_min(s, (n - 1) as nat);
        if s[n - 1] < s[best] {
            n - 1
        } else {
            best
        }
    }
}

/// The left patch and the right patches at all places of the search are inside the images.
pub open spec fn search_fits(
    left: GrayImage<'_>,
    right: GrayImage<'_>,
    v: int,
    ul: int,
    ur: int,
) -> bool {
    &&& SAD_HALF_WINDOW <= ul
    &&& ul + SAD_HALF_WINDOW < left.width
    &&& SAD_HALF_WINDOW <= v
    &&& v + SAD_HALF_WINDOW < left.height
    &&& SAD_SEARCH_RANGE + SAD_HALF_WINDOW <= ur
    &&& ur + SAD_SEARCH_RANGE + SAD_HALF_WINDOW + 1 < right.width
    &&& v + SAD_HALF_WINDOW < right.height
}

/// What the sliding search gives: nothing where a patch is not inside the images or the
/// best place is at an end of the search, which leaves no neighbour to fit.
pub open spec fn sad_optimum(
    left: GrayImage<'_>,
    right: GrayImage<'_>,
    v: int,
    ul: int,
    ur: i32,
) -> Option<SadOptimum> {
    let sads = sliding_sads(left, right, v, ul, ur as int);
    let best = first_min(sads, SAD_PLACES as nat);
    if !search_fits(left, right, v, ul, ur as int) || best == 0 || best == SAD_PLACES - 1 {
        None
    } else {
        Some(
            SadOptimum {
                start: ur,
                offset: (best - SAD_SEARCH_RANGE) as i32,
                before: sads[best - 1] as u32,
                best: sads[best] as u32,
                after: sads[best + 1] as u32,
            },
        )
    }
}

proof fn lemma_row_sad_bound(
    left: GrayImage<'_>,
    right: GrayImage<'_>,
    v: int,
    ul: int,
    ur: int,
    n: nat,
)
    ensures
        row_sad(left, right, v, ul, ur, n) <= 255 * n,
    decreases n,
{
    if n > 0 {
        lemma_row_sad_bound(left, right, v, ul, ur, (n - 1) as nat);
    }
}

proof fn lemma_block_sad_bound(
    left: GrayImage<'_>,
    right: GrayImage<'_>,
    v: int,
    ul: int,
    ur: int,
    n: nat,
)
    ensures
        block_sad(left, right, v, ul, ur, n) <= 2805 * n,
    decreases n,
{
    if n > 0 {
        lemma_block_sad_bound(left, right, v, ul, ur, (n - 1) as nat);
        lemma_row_sad_bound(left, right, v + n - 1, ul, ur, SAD_WINDOW as nat);
    }
}

/// The SAD of a patch is at most what every pixel differing fully would give.
pub proof fn lemma_patch_sad_bound(
    left: GrayImage<'_>,
    right: GrayImage<'_>,
    v: int,
    ul: int,
    ur: int,
)
    ensures
        patch_sad(left, right, v, ul, ur) <= 30855,
{
    lemma_block_sad_bound(
        left,
        right,
        v - SAD_HALF_WINDOW,
        ul - SAD_HALF_WINDOW,
        ur - SAD_HALF_WINDOW,
        SAD_WINDOW as nat,
    );
}

/// The first minimum is a minimum, and everything before it is greater.
pub proof fn lemma_first_min(s: Seq<nat>, n: nat)
    requires
        1 <= n <= s.len(),
    ensures
        0 <= first_min(s, n) < n,
        forall|j: int| 0 <= j < n ==> s[first_min(s, n)] <= #[trigger] s[j],
        forall|j: int| 0 <= j < first_min(s, n) ==> s[first_min(s, n)] < #[trigger] s[j],
    decreases n,
{
    if n > 1 {
        lemma_first_min(s, (n - 1) as nat);
    }
}

/// The parabola through the SADs at the optimum and its neighbours opens upwards, and its
/// vertex is within half a pixel of the optimum: a fit always succeeds.
pub proof fn lemma_vertex_within_half_pixel(
    left: GrayImage<'_>,
    right: GrayImage<'_>,
    v: int,
    ul: int,
    ur: i32,
)
    requires
        sad_optimum(left, right, v, ul, ur) is Some,
    ensures
        ({
            let o = sad_optimum(left, right, v, ul, ur)->0;
            let curvature = o.before + o.after - 2 * o.best;
            &&& curvature > 0
            &&& -curvature <= o.before - o.after <= curvature
            &&& -SAD_SEARCH_RANGE < o.offset < SAD_SEARCH_RANGE
        }),
{
    let sads = sliding_sads(left, right, v, ul, ur as int);
    lemma_first_min(sads, SAD_PLACES as nat);
    let best = first_min(sads, SAD_PLACES as nat);
    lemma_patch_sad_bound(left, right, v, ul, ur - SAD_SEARCH_RANGE + best - 1);
    lemma_patch_sad_bound(left, right, v, ul, ur - SAD_SEARCH_RANGE + best);
    lemma_patch_sad_bound(left, right, v, ul, ur - SAD_SEARCH_RANGE + best + 1);
    assert(sads[best] < sads[best - 1]);
    assert(sads[best] <= sads[best + 1]);
}

proof fn lemma_pixel_index(height: int, width: int, v: int, u: int)
    requires
        0 <= v < height,
        0 <= u < width,
    ensures
        0 <= v * width,
        v * width + u < height * width,
{
    assert(0 <= v * width && v * width + u < height * width) by (nonlinear_arith)
        requires
            0 <= v < height,
            0 <= u < width,
    ;
}

/// The SAD of the patches whose upper left corners are given.
fn compute_patch_sad(left: &GrayImage<'_>, right: &GrayImage<'_>, v: usize, ul: usize, ur: usize) -> (sad:
    u32)
    requires
        left.wf(),
        right.wf(),
        ul + SAD_WINDOW <= left.width,
        ur + SAD_WINDOW <= right.width,
        v + SAD_WINDOW <= left.height,
        v + SAD_WINDOW <= right.height,
    ensures
        sad == block_sad(*left, *right, v as int, ul as int, ur as int, SAD_WINDOW as nat),
        sad <= 30855,
{
    let n_left: usize = left.pixels.len();
    let n_right: usize = right.pixels.len();
    let mut sad: u32 = 0;
    let mut dy: usize = 0;
    while dy < SAD_WINDOW
        invariant
            left.wf(),
            right.wf(),
            n_left == left.pixels@.len(),
            n_right == right.pixels@.len(),
            ul + SAD_WINDOW <= left.width,
            ur + SAD_WINDOW <= right.width,
            v + SAD_WINDOW <= left.height,
            v + SAD_WINDOW <= right.height,
            dy <= SAD_WINDOW,
            sad == block_sad(*left, *right, v as int, ul as int, ur as int, dy as nat),
            sad <= 2805 * dy,
        decreases SAD_WINDOW - dy,
    {
        let row: usize = v + dy;
        let ghost above = sad;
        let mut dx: usize = 0;
        while dx < SAD_WINDOW
            invariant
                left.wf(),
                right.wf(),
                n_left == left.pixels@.len(),
                n_right == right.pixels@.len(),
                ul + SAD_WINDOW <= left.width,
                ur + SAD_WINDOW <= right.width,
                row < left.height,
                row < right.height,
                dx <= SAD_WINDOW,
                dy < SAD_WINDOW,
                above <= 2805 * dy,
                sad == above + row_sad(
                    *left,
                    *right,
                    row as int,
                    ul as int,
                    ur as int,
                    dx as nat,
                ),
                sad <= above + 255 * dx,
            decreases SAD_WINDOW - dx,
        {
            proof {
                lemma_pixel_index(left.height as int, left.width as int, row as int, ul + dx);
                lemma_pixel_index(right.height as int, right.width as int, row as int, ur + dx);
            }
            let a: u8 = left.pixels[row * left.width + (ul + dx)];
            let b: u8 = right.pixels[row * right.width + (ur + dx)];
            let diff: u8 = if a >= b {
                a - b
            } else {
                b - a
            };
            sad += diff as u32;
            dx += 1;
        }
        dy += 1;
    }
    sad
}

/// The sliding search around column `ur`.
pub fn find_sad_optimum(
    left: &GrayImage<'_>,
    right: &GrayImage<'_>,
    scaled_v: i32,
    scaled_u: i32,
    start: i32,
) -> (optimum: Option<SadOptimum>)
    requires
        left.wf(),
        right.wf(),
    ensures
        optimum == sad_optimum(*left, *right, scaled_v as int, scaled_u as int, start),
{
    if scaled_u < SAD_HALF_WINDOW as i32 || scaled_v < SAD_HALF_WINDOW as i32 || start < (
    SAD_SEARCH_RANGE + SAD_HALF_WINDOW) as i32 {
        return None;
    }
    let ul: usize = scaled_u as usize;
    let v: usize = scaled_v as usize;
    let ur: usize = start as usize;
    if ul + SAD_HALF_WINDOW >= left.width || v + SAD_HALF_WINDOW >= left.height || ur
        + SAD_SEARCH_RANGE + SAD_HALF_WINDOW + 1 >= right.width || v + SAD_HALF_WINDOW
        >= right.height {
        return None;
    }
    let ghost sads = sliding_sads(*left, *right, v as int, ul as int, ur as int);
    let mut found: Vec<u32> = Vec::new();
    let mut best: usize = 0;
    let mut i: usize = 0;
    while i < SAD_PLACES
        invariant
            left.wf(),
            right.wf(),
            search_fits(*left, *right, v as int, ul as int, ur as int),
            sads == sliding_sads(*left, *right, v as int, ul as int, ur as int),
            i <= SAD_PLACES,
            ur < 0x8000_0000,
            found@.len() == i,
            forall|j: int| 0 <= j < i ==> #[trigger] found@[j] == sads[j],
            best == first_min(sads, i as nat),
            i > 0 ==> best < i,
            i == 0 ==> best == 0,
        decreases SAD_PLACES - i,
    {
        let sad: u32 = compute_patch_sad(
            left,
            right,
            v - SAD_HALF_WINDOW,
            ul - SAD_HALF_WINDOW,
            ur - SAD_SEARCH_RANGE - SAD_HALF_WINDOW + i,
        );
        assert(sad == sads[i as int]);
        if i > 0 && sad < found[best] {
            best = i;
        }
        found.push(sad);
        i += 1;
    }
    if best == 0 || best == SAD_PLACES - 1 {
        return None;
    }
    Some(
        SadOptimum {
            start,
            offset: best as i32 - SAD_SEARCH_RANGE as i32,
            before: found[best - 1],
            best: found[best],
            after: found[best + 1],
        },
    )
}

/// What stereo matching asks about coordinates.
pub struct StereoGeometry<U, N, S, P> {
    /// The disparity that none reaches, by its bits.
    pub max_disparity: u32,
    /// The column of a right keypoint at the scale of an octave.
    pub scaled_right: U,
    /// The x-coordinate in the right image of a left keypoint, and its disparity, from what
    /// the sliding search at the scale of an octave found.
    pub refine: N,
    /// The x-coordinate and the disparity to use where there is no disparity.
    pub smallest: S,
    /// The x-coordinate and the depth, from the x-coordinate and the disparity.
    pub place: P,
}

/// `StereoGeometry` answers every question.
pub open spec fn can_locate<U, N, S, P>(geometry: StereoGeometry<U, N, S, P>) -> bool where
    U: Fn(usize, usize) -> i32,
    N: Fn(usize, usize, SadOptimum) -> Vec2F32,
    S: Fn(usize) -> Vec2F32,
    P: Fn(&Vec2F32) -> Vec2F32,
 {
    &&& forall|ir: usize, octave: usize| call_requires(geometry.scaled_right, (ir, octave))
    &&& forall|il: usize, octave: usize, optimum: SadOptimum|
        call_requires(geometry.refine, (il, octave, optimum))
    &&& forall|il: usize| call_requires(geometry.smallest, (il,))
    &&& forall|refined: &Vec2F32| call_requires(geometry.place, (refined,))
}

/// All that stereo matching reads of the two views.
pub struct StereoScene<'a> {
    pub left_pyramid: Seq<GrayImage<'a>>,
    pub right_pyramid: Seq<GrayImage<'a>>,
    pub left: OrbFeatures,
    pub right: OrbFeatures,
    pub left_keypoints: Seq<LeftKeypoint>,
    pub right_bands: Seq<RowBand>,
    pub config: StereoMatchConfig,
}

/// The row itself, or the nearest row of the image.
pub open spec fn clamped_row(row: i32, n_rows: nat) -> int {
    if row < 0 {
        0
    } else if row < n_rows {
        row as int
    } else {
        n_rows - 1
    }
}

/// A right keypoint can match in row `y`.
pub open spec fn covers(band: RowBand, y: int) -> bool {
    band.first <= y <= band.last
}

/// The octaves are the same or neighbours.
pub open spec fn near_octaves(a: u8, b: u8) -> bool {
    b - 1 <= a <= b + 1
}

/// The right keypoint can match in the row of the left one, at a near octave, within the
/// disparity band.
pub open spec fn is_candidate(scene: StereoScene<'_>, il: int, ir: int) -> bool {
    let n_rows = scene.left_pyramid[0].height as nat;
    &&& covers(scene.right_bands[ir], clamped_row(scene.left_keypoints[il].row, n_rows))
    &&& near_octaves(octaves_of(scene.right)[ir], octaves_of(scene.left)[il])
    &&& is_in_band(scene, il, ir)
}

/// The right keypoint is within the disparity band of the left one.
pub open spec fn is_in_band(scene: StereoScene<'_>, il: int, ir: int) -> bool {
    let u = number(column_bits(scene.right)[ir]);
    &&& at_least(u, number(scene.left_keypoints[il].min_u))
    &&& at_least(number(column_bits(scene.left)[il]), u)
}

/// The left keypoint is left of the image.
pub open spec fn is_off_image(scene: StereoScene<'_>, il: int) -> bool {
    above(Some(0), number(column_bits(scene.left)[il]))
}

/// Descriptor distance of a left and a right keypoint.
pub open spec fn descriptor_gap(scene: StereoScene<'_>, il: int, ir: int) -> nat {
    hamming(descriptors_of(scene.left)[il]@, descriptors_of(scene.right)[ir]@)
}

/// Of the first `n` right keypoints that are candidates, the first of those whose descriptor
/// is nearest, if it is nearer than the ceiling.
pub open spec fn coarse_match(scene: StereoScene<'_>, il: int, n: nat) -> Option<usize>
    decreases n,
{
    if n == 0 {
        None
    } else {
        let best = coarse_match(scene, il, (n - 1) as nat);
        let so_far = match best {
            None => scene.config.th_high as nat,
            Some(ir) => descriptor_gap(scene, il, ir as int),
        };
        if is_candidate(scene, il, n - 1) && descriptor_gap(scene, il, n - 1) < so_far {
            Some((n - 1) as usize)
        } else {
            best
        }
    }
}

/// The disparity is not negative, and less than the largest.
pub open spec fn is_usable(disparity: Option<int>, max_disparity: u32) -> bool {
    at_least(disparity, Some(0)) && above(number(max_disparity), disparity)
}

/// `at` is the x-coordinate and the depth that follow from a refined x-coordinate and its
/// disparity: none where the disparity is not usable, and those of the smallest disparity
/// where there is none.
pub open spec fn is_place<S, P>(
    max_disparity: u32,
    smallest: S,
    place: P,
    il: usize,
    refined: Vec2F32,
    at: Option<Vec2F32>,
) -> bool where S: Fn(usize) -> Vec2F32, P: Fn(&Vec2F32) -> Vec2F32 {
    if !is_usable(y_of(refined), max_disparity) {
        at is None
    } else {
        exists|used: Vec2F32|
            {
                &&& if at_least(Some(0), y_of(refined)) {
                    call_ensures(smallest, (il,), used)
                } else {
                    used == refined
                }
                &&& at is Some
                &&& #[trigger] call_ensures(place, (&used,), at->0)
            }
    }
}

/// `found` is the place of left keypoint `il` after its coarse match `ir`, with its SAD.
pub open spec fn is_fine_match<U, N, S, P>(
    scene: StereoScene<'_>,
    geometry: StereoGeometry<U, N, S, P>,
    il: usize,
    ir: usize,
    found: Option<(Vec2F32, u32)>,
) -> bool where
    U: Fn(usize, usize) -> i32,
    N: Fn(usize, usize, SadOptimum) -> Vec2F32,
    S: Fn(usize) -> Vec2F32,
    P: Fn(&Vec2F32) -> Vec2F32,
 {
    let octave = octaves_of(scene.left)[il as int] as usize;
    let kp = scene.left_keypoints[il as int];
    if octave >= scene.left_pyramid.len() || octave >= scene.right_pyramid.len() {
        found is None
    } else {
        exists|start: i32|
            {
                &&& #[trigger] call_ensures(geometry.scaled_right, (ir, octave), start)
                &&& match sad_optimum(
                    scene.left_pyramid[octave as int],
                    scene.right_pyramid[octave as int],
                    kp.scaled_v as int,
                    kp.scaled_u as int,
                    start,
                ) {
                    None => found is None,
                    Some(optimum) => exists|refined: Vec2F32, at: Option<Vec2F32>|
                        {
                            &&& #[trigger] call_ensures(
                                geometry.refine,
                                (il, octave, optimum),
                                refined,
                            )
                            &&& #[trigger] is_place(
                                geometry.max_disparity,
                                geometry.smallest,
                                geometry.place,
                                il,
                                refined,
                                at,
                            )
                            &&& found == match at {
                                None => None,
                                Some(at) => Some((at, optimum.best)),
                            }
                        },
                }
            }
    }
}

/// `found` is the place of left keypoint `il` in the right view, with its SAD.
pub open spec fn is_left_match<U, N, S, P>(
    scene: StereoScene<'_>,
    geometry: StereoGeometry<U, N, S, P>,
    il: usize,
    found: Option<(Vec2F32, u32)>,
) -> bool where
    U: Fn(usize, usize) -> i32,
    N: Fn(usize, usize, SadOptimum) -> Vec2F32,
    S: Fn(usize) -> Vec2F32,
    P: Fn(&Vec2F32) -> Vec2F32,
 {
    if is_off_image(scene, il as int) {
        found is None
    } else {
        match coarse_match(scene, il as int, keypoint_count(scene.right)) {
            None => found is None,
            Some(ir) => if descriptor_gap(scene, il as int, ir as int)
                >= scene.config.th_orb_dist {
                found is None
            } else {
                is_fine_match(scene, geometry, il, ir, found)
            },
        }
    }
}

/// The SADs of the places that were found, in order.
pub open spec fn found_sads(found: Seq<Option<(Vec2F32, u32)>>) -> Seq<u64>
    decreases found.len(),
{
    if found.len() == 0 {
        Seq::empty()
    } else {
        let head = found_sads(found.drop_last());
        match found.last() {
            None => head,
            Some((_, sad)) => head.push(sad as u64),
        }
    }
}

/// The SAD is less than 2.1 times the median.
pub open spec fn passes_median(sad: u32, median: u64) -> bool {
    10 * sad < 21 * median
}

/// The places that are left when those whose SAD is an outlier are dropped.
pub open spec fn without_outliers(
    found: Seq<Option<(Vec2F32, u32)>>,
    median: u64,
) -> Seq<Option<Vec2F32>> {
    Seq::new(
        found.len(),
        |i: int|
            match found[i] {
                None => None,
                Some((at, sad)) => if passes_median(sad, median) {
                    Some(at)
                } else {
                    None
                },
            },
    )
}

/// `matches` is the result of stereo matching.
pub open spec fn is_stereo_result<U, N, S, P>(
    scene: StereoScene<'_>,
    geometry: StereoGeometry<U, N, S, P>,
    matches: Seq<Option<Vec2F32>>,
) -> bool where
    U: Fn(usize, usize) -> i32,
    N: Fn(usize, usize, SadOptimum) -> Vec2F32,
    S: Fn(usize) -> Vec2F32,
    P: Fn(&Vec2F32) -> Vec2F32,
 {
    let n = keypoint_count(scene.left);
    if scene.left_pyramid.len() == 0 || scene.right_pyramid.len() == 0
        || scene.left_pyramid[0].height == 0 || keypoint_count(scene.right) == 0 {
        matches == Seq::new(n, |i: int| None::<Vec2F32>)
    } else {
        exists|found: Seq<Option<(Vec2F32, u32)>>|
            {
                &&& found.len() == n
                &&& forall|il: int|
                    0 <= il < n ==> is_left_match(
                        scene,
                        geometry,
                        il as usize,
                        #[trigger] found[il],
                    )
                &&& if found_sads(found).len() == 0 {
                    matches == Seq::new(n, |i: int| None::<Vec2F32>)
                } else {
                    exists|median: u64| #[trigger]
                        is_median(found_sads(found), median) && matches == without_outliers(
                            found,
                            median,
                        )
                }
            }
    }
}

/// The SADs of the places that were found.
fn list_sads(found: &Vec<Option<(Vec2F32, u32)>>) -> (sads: Vec<u64>)
    ensures
        sads@ == found_sads(found@),
{
    let mut sads: Vec<u64> = Vec::new();
    let mut i: usize = 0;
    assert(found@.take(0) =~= Seq::empty());
    while i < found.len()
        invariant
            i <= found@.len(),
            sads@ == found_sads(found@.take(i as int)),
        decreases found@.len() - i,
    {
        assert(found@.take(i + 1).drop_last() =~= found@.take(i as int));
        if let Some((_, sad)) = found[i] {
            sads.push(sad as u64);
        }
        i += 1;
    }
    assert(found@.take(i as int) =~= found@);
    sads
}

fn drop_outliers(found: &Vec<Option<(Vec2F32, u32)>>, median: u64) -> (left: Vec<Option<Vec2F32>>)
    ensures
        left@ == without_outliers(found@, median),
{
    let mut left: Vec<Option<Vec2F32>> = Vec::new();
    let mut i: usize = 0;
    while i < found.len()
        invariant
            i <= found@.len(),
            left@.len() == i,
            forall|j: int| 0 <= j < i ==> #[trigger] left@[j] == without_outliers(found@, median)[j],
        decreases found@.len() - i,
    {
        let entry = match found[i] {
            None => None,
            Some((at, sad)) => if 10 * (sad as u128) < 21 * (median as u128) {
                Some(at)
            } else {
                None
            },
        };
        left.push(entry);
        i += 1;
    }
    assert(left@ =~= without_outliers(found@, median));
    left
}

/// The right keypoints that can match in each row.
fn row_table(bands: &[RowBand], n_rows: usize) -> (table: Vec<Vec<usize>>)
    requires
        n_rows <= i32::MAX,
    ensures
        table@.len() == n_rows,
        forall|y: int|
            0 <= y < n_rows ==> #[trigger] table@[y]@ == indices_where(
                bands@.len(),
                |ir: int| covers(bands@[ir], y),
            ),
{
    let mut table: Vec<Vec<usize>> = Vec::new();
    let mut r: usize = 0;
    while r < n_rows
        invariant
            r <= n_rows,
            table@.len() == r,
            forall|y: int| 0 <= y < r ==> #[trigger] table@[y]@ == Seq::<usize>::empty(),
        decreases n_rows - r,
    {
        table.push(Vec::new());
        r += 1;
    }
    let mut ir: usize = 0;
    while ir < bands.len()
        invariant
            ir <= bands@.len(),
            n_rows <= i32::MAX,
            table@.len() == n_rows,
            forall|y: int|
                0 <= y < n_rows ==> #[trigger] table@[y]@ == indices_where(
                    ir as nat,
                    |ir: int| covers(bands@[ir], y),
                ),
        decreases bands@.len() - ir,
    {
        let band: RowBand = bands[ir];
        let first: usize = if band.first > 0 {
            band.first as usize
        } else {
            0
        };
        let end: usize = if band.last < 0 {
            0
        } else if (band.last as usize) < n_rows {
            band.last as usize + 1
        } else {
            n_rows
        };
        let ghost before = table@;
        let mut y: usize = first;
        while y < end
            invariant
                first <= y,
                y == first || y <= end,
                end <= n_rows,
                table@.len() == n_rows,
                before.len() == n_rows,
                forall|h: int|
                    0 <= h < n_rows ==> #[trigger] table@[h]@ == (if first <= h < y {
                        before[h]@.push(ir)
                    } else {
                        before[h]@
                    }),
            decreases end - y,
        {
            table[y].push(ir);
            y += 1;
        }
        assert forall|h: int| 0 <= h < n_rows implies #[trigger] table@[h]@ == indices_where(
            (ir + 1) as nat,
            |ir: int| covers(bands@[ir], h),
        ) by {
            assert(before[h]@ == indices_where(ir as nat, |ir: int| covers(bands@[ir], h)));
            assert(covers(band, h) <==> first <= h < end);
        }
        ir += 1;
    }
    table
}

proof fn lemma_coarse_bound(scene: StereoScene<'_>, il: int, n: nat)
    requires
        n <= usize::MAX,
    ensures
        match coarse_match(scene, il, n) {
            None => true,
            Some(ir) => ir < n && descriptor_gap(scene, il, ir as int) < scene.config.th_high,
        },
    decreases n,
{
    if n > 0 {
        lemma_coarse_bound(scene, il, (n - 1) as nat);
    }
}

/// A coarse match is a candidate, nearer than the ceiling, and no other candidate is nearer.
pub proof fn lemma_coarse_match(scene: StereoScene<'_>, il: int, n: nat)
    requires
        n <= usize::MAX,
    ensures
        match coarse_match(scene, il, n) {
            None => forall|j: int|
                0 <= j < n && is_candidate(scene, il, j) ==> #[trigger] descriptor_gap(
                    scene,
                    il,
                    j,
                ) >= scene.config.th_high,
            Some(ir) => {
                &&& ir < n
                &&& is_candidate(scene, il, ir as int)
                &&& descriptor_gap(scene, il, ir as int) < scene.config.th_high
                &&& forall|j: int|
                    0 <= j < n && is_candidate(scene, il, j) ==> descriptor_gap(
                        scene,
                        il,
                        ir as int,
                    ) <= #[trigger] descriptor_gap(scene, il, j)
            },
        },
    decreases n,
{
    lemma_coarse_bound(scene, il, n);
    if n > 0 {
        lemma_coarse_match(scene, il, (n - 1) as nat);
    }
}

/// The features of the two views, and what was computed of their keypoints, belong together.
pub open spec fn is_consistent(scene: StereoScene<'_>) -> bool {
    let n = keypoint_count(scene.left);
    let m = keypoint_count(scene.right);
    &&& descriptors_of(scene.left).len() >= n
    &&& octaves_of(scene.left).len() >= n
    &&& scene.left_keypoints.len() == n
    &&& descriptors_of(scene.right).len() >= m
    &&& octaves_of(scene.right).len() >= m
    &&& scene.right_bands.len() == m
    &&& forall|o: int| 0 <= o < scene.left_pyramid.len() ==> (#[trigger] scene.left_pyramid[o]).wf()
    &&& forall|o: int|
        0 <= o < scene.right_pyramid.len() ==> (#[trigger] scene.right_pyramid[o]).wf()
    &&& scene.left_pyramid.len() > 0 ==> scene.left_pyramid[0].height <= i32::MAX
}

/// The coarse match of left keypoint `il` among the right keypoints in its row.
fn find_coarse_match(
    il: usize,
    kp: &LeftKeypoint,
    left_columns: &Vec<u32>,
    right_columns: &Vec<u32>,
    in_row: &Vec<usize>,
    left: &OrbFeatures,
    right: &OrbFeatures,
    config: &StereoMatchConfig,
    Ghost(scene): Ghost<StereoScene<'_>>,
) -> (best: Option<(usize, u32)>)
    requires
        is_consistent(scene),
        il < keypoint_count(scene.left),
        *kp == scene.left_keypoints[il as int],
        left_columns@ == column_bits(scene.left),
        right_columns@ == column_bits(scene.right),
        left_columns@.len() == keypoint_count(scene.left),
        right_columns@.len() == keypoint_count(scene.right),
        *left == scene.left,
        *right == scene.right,
        *config == scene.config,
        keypoint_count(scene.right) <= usize::MAX,
        in_row@ == indices_where(
            keypoint_count(scene.right),
            |ir: int|
                covers(
                    scene.right_bands[ir],
                    clamped_row(
                        scene.left_keypoints[il as int].row,
                        scene.left_pyramid[0].height as nat,
                    ),
                ),
        ),
    ensures
        match best {
            None => coarse_match(scene, il as int, keypoint_count(scene.right)) is None,
            Some((ir, gap)) => {
                &&& coarse_match(scene, il as int, keypoint_count(scene.right)) == Some(ir)
                &&& gap == descriptor_gap(scene, il as int, ir as int)
            },
        },
{
    let n: usize = count_keypoints(right);
    let left_descriptors = descriptors(left);
    let right_descriptors = descriptors(right);
    let left_octave: u8 = octaves(left)[il];
    let right_octaves = octaves(right);
    let ghost row = clamped_row(
        scene.left_keypoints[il as int].row,
        scene.left_pyramid[0].height as nat,
    );
    let ghost in_this_row = |ir: int| covers(scene.right_bands[ir], row);
    let mut best: Option<(usize, u32)> = None;
    let mut j: usize = 0;
    // Right keypoints below this one have been dealt with.
    let mut next: usize = 0;
    while next < n
        invariant
            next <= n,
            n == keypoint_count(scene.right),
            n <= usize::MAX,
            is_consistent(scene),
            il < keypoint_count(scene.left),
            *kp == scene.left_keypoints[il as int],
            left_columns@ == column_bits(scene.left),
            right_columns@ == column_bits(scene.right),
            left_columns@.len() == keypoint_count(scene.left),
            right_columns@.len() == n,
            *left == scene.left,
            *right == scene.right,
            *config == scene.config,
            left_descriptors@ == descriptors_of(*left),
            right_descriptors@ == descriptors_of(*right),
            left_octave == octaves_of(*left)[il as int],
            right_octaves@ == octaves_of(*right),
            row == clamped_row(
                scene.left_keypoints[il as int].row,
                scene.left_pyramid[0].height as nat,
            ),
            in_this_row == (|ir: int| covers(scene.right_bands[ir], row)),
            in_row@ == indices_where(n as nat, in_this_row),
            j <= in_row@.len(),
            forall|a: int| 0 <= a < j ==> #[trigger] in_row@[a] < next,
            forall|a: int| j <= a < in_row@.len() ==> #[trigger] in_row@[a] >= next,
            match best {
                None => coarse_match(scene, il as int, next as nat) is None,
                Some((ir, gap)) => {
                    &&& coarse_match(scene, il as int, next as nat) == Some(ir)
                    &&& gap == descriptor_gap(scene, il as int, ir as int)
                },
            },
        decreases n - next,
    {
        proof {
            crate::selection::lemma_indices_where(n as nat, in_this_row);
        }
        if j >= in_row.len() {
            proof {
                assert forall|ir: int| next <= ir < n implies !covers(
                    #[trigger] scene.right_bands[ir],
                    row,
                ) by {
                    if in_this_row(ir) {
                        assert(in_row@.contains(ir as usize));
                    }
                }
                lemma_coarse_skip(scene, il as int, next as nat, n as nat);
            }
            next = n;
        } else {
            let ir: usize = in_row[j];
            proof {
                assert forall|h: int| next <= h < ir implies !covers(
                    #[trigger] scene.right_bands[h],
                    row,
                ) by {
                    if in_this_row(h) {
                        assert(in_row@.contains(h as usize));
                        let a = choose|a: int| 0 <= a < in_row@.len() && in_row@[a] == h as usize;
                        if a > j {
                            assert(in_row@[j as int] < in_row@[a]);
                        }
                    }
                }
                lemma_coarse_skip(scene, il as int, next as nat, ir as nat);
                assert(in_this_row(ir as int));
            }
            let octave: u8 = right_octaves[ir];
            if octave as u32 + 1 >= left_octave as u32 && octave as u32 <= left_octave as u32 + 1 {
                if is_at_least(right_columns[ir], kp.min_u) && is_at_least(
                    left_columns[il],
                    right_columns[ir],
                ) {
                    let gap: u32 = hamming_distance(&left_descriptors[il], &right_descriptors[ir]);
                    let so_far: u32 = match best {
                        None => config.th_high,
                        Some((_, gap)) => gap,
                    };
                    if gap < so_far {
                        best = Some((ir, gap));
                    }
                }
            }
            proof {
                assert forall|a: int| j + 1 <= a < in_row@.len() implies #[trigger] in_row@[a]
                    >= ir + 1 by {
                    assert(in_row@[j as int] < in_row@[a]);
                }
            }
            next = ir + 1;
            j += 1;
        }
    }
    best
}

proof fn lemma_coarse_skip(
    scene: StereoScene<'_>,
    il: int,
    from: nat,
    to: nat,
)
    requires
        from <= to,
        forall|ir: int| from <= ir < to ==> !covers(
            #[trigger] scene.right_bands[ir],
            clamped_row(scene.left_keypoints[il].row, scene.left_pyramid[0].height as nat),
        ),
    ensures
        coarse_match(scene, il, to) == coarse_match(scene, il, from),
    decreases to - from,
{
    if from < to {
        lemma_coarse_skip(scene, il, from, (to - 1) as nat);
        assert(!covers(
            scene.right_bands[to - 1],
            clamped_row(scene.left_keypoints[il].row, scene.left_pyramid[0].height as nat),
        ));
    }
}

/// The x-coordinate and the depth of left keypoint `il`, from a refined x-coordinate and its
/// disparity.
pub fn place_match<U, N, S, P>(
    geometry: &StereoGeometry<U, N, S, P>,
    il: usize,
    refined: Vec2F32,
) -> (at: Option<Vec2F32>) where
    U: Fn(usize, usize) -> i32,
    N: Fn(usize, usize, SadOptimum) -> Vec2F32,
    S: Fn(usize) -> Vec2F32,
    P: Fn(&Vec2F32) -> Vec2F32,

    requires
        can_locate(*geometry),
    ensures
        is_place(
            geometry.max_disparity,
            geometry.smallest,
            geometry.place,
            il,
            refined,
            at,
        ),
{
    let disparity: u32 = y_bits(&refined);
    if !is_at_least(disparity, 0) || !is_above(geometry.max_disparity, disparity) {
        return None;
    }
    let used = if is_at_least(0, disparity) {
        (geometry.smallest)(il)
    } else {
        refined
    };
    let at = (geometry.place)(&used);
    assert(number(0) == Some(0int));
    assert(call_ensures(geometry.place, (&used,), Some(at)->0));
    Some(at)
}

/// The place of left keypoint `il` in the right view, with its SAD.
fn match_left<U, N, S, P>(
    left_pyramid: &[GrayImage<'_>],
    right_pyramid: &[GrayImage<'_>],
    left: &OrbFeatures,
    right: &OrbFeatures,
    kp: &LeftKeypoint,
    left_columns: &Vec<u32>,
    right_columns: &Vec<u32>,
    in_row: &Vec<usize>,
    config: &StereoMatchConfig,
    geometry: &StereoGeometry<U, N, S, P>,
    il: usize,
    Ghost(scene): Ghost<StereoScene<'_>>,
) -> (found: Option<(Vec2F32, u32)>) where
    U: Fn(usize, usize) -> i32,
    N: Fn(usize, usize, SadOptimum) -> Vec2F32,
    S: Fn(usize) -> Vec2F32,
    P: Fn(&Vec2F32) -> Vec2F32,

    requires
        can_locate(*geometry),
        is_consistent(scene),
        il < keypoint_count(scene.left),
        left_pyramid@ == scene.left_pyramid,
        right_pyramid@ == scene.right_pyramid,
        *left == scene.left,
        *right == scene.right,
        *kp == scene.left_keypoints[il as int],
        left_columns@ == column_bits(scene.left),
        right_columns@ == column_bits(scene.right),
        left_columns@.len() == keypoint_count(scene.left),
        right_columns@.len() == keypoint_count(scene.right),
        *config == scene.config,
        keypoint_count(scene.right) <= usize::MAX,
        in_row@ == indices_where(
            keypoint_count(scene.right),
            |ir: int|
                covers(
                    scene.right_bands[ir],
                    clamped_row(
                        scene.left_keypoints[il as int].row,
                        scene.left_pyramid[0].height as nat,
                    ),
                ),
        ),
    ensures
        is_left_match(scene, *geometry, il, found),
{
    if is_above(0, left_columns[il]) {
        return None;
    }
    let best = find_coarse_match(
        il,
        kp,
        left_columns,
        right_columns,
        in_row,
        left,
        right,
        config,
        Ghost(scene),
    );
    let (ir, gap) = match best {
        None => {
            return None;
        },
        Some(found) => found,
    };
    if gap >= config.th_orb_dist {
        return None;
    }
    let octave: usize = octaves(left)[il] as usize;
    if octave >= left_pyramid.len() || octave >= right_pyramid.len() {
        assert(is_fine_match(scene, *geometry, il, ir, None));
        return None;
    }
    let start: i32 = (geometry.scaled_right)(ir, octave);
    let found = match find_sad_optimum(
        &left_pyramid[octave],
        &right_pyramid[octave],
        kp.scaled_v,
        kp.scaled_u,
        start,
    ) {
        None => None,
        Some(optimum) => {
            let refined = (geometry.refine)(il, octave, optimum);
            let at = place_match(geometry, il, refined);
            match at {
                None => None,
                Some(at) => Some((at, optimum.best)),
            }
        },
    };
    assert(is_fine_match(scene, *geometry, il, ir, found));
    found
}

/// Computes stereo correspondences for a rectified pair.
///
/// `left_pyramid` and `right_pyramid` hold one image per ORB octave; only level 0 is
/// required if all keypoints are at octave 0. `left` and `right` are the ORB features of
/// the respective views, with the rows and rounded coordinates of their keypoints. Where
/// a patch of the sliding search would not be inside its image there is no match. Returns
/// an entry per left keypoint.
pub fn compute_stereo_matches<U, N, S, P>(
    left_pyramid: &[GrayImage<'_>],
    right_pyramid: &[GrayImage<'_>],
    left: &OrbFeatures,
    right: &OrbFeatures,
    left_keypoints: &[LeftKeypoint],
    right_bands: &[RowBand],
    config: &StereoMatchConfig,
    geometry: &StereoGeometry<U, N, S, P>,
) -> (matches: StereoMatches) where
    U: Fn(usize, usize) -> i32,
    N: Fn(usize, usize, SadOptimum) -> Vec2F32,
    S: Fn(usize) -> Vec2F32,
    P: Fn(&Vec2F32) -> Vec2F32,

    requires
        can_locate(*geometry),
        is_consistent(
            (StereoScene {
                left_pyramid: left_pyramid@,
                right_pyramid: right_pyramid@,
                left: *left,
                right: *right,
                left_keypoints: left_keypoints@,
                right_bands: right_bands@,
                config: *config,
            }),
        ),
    ensures
        is_stereo_result(
            (StereoScene {
                left_pyramid: left_pyramid@,
                right_pyramid: right_pyramid@,
                left: *left,
                right: *right,
                left_keypoints: left_keypoints@,
                right_bands: right_bands@,
                config: *config,
            }),
            *geometry,
            matches.found@,
        ),
{
    let ghost scene = StereoScene {
        left_pyramid: left_pyramid@,
        right_pyramid: right_pyramid@,
        left: *left,
        right: *right,
        left_keypoints: left_keypoints@,
        right_bands: right_bands@,
        config: *config,
    };
    let n_left: usize = count_keypoints(left);
    let n_right: usize = count_keypoints(right);
    let unmatched: Vec<Option<Vec2F32>> = vec![None; n_left];
    assert(unmatched@ =~= Seq::new(n_left as nat, |i: int| None::<Vec2F32>));
    if left_pyramid.len() == 0 || right_pyramid.len() == 0 {
        return StereoMatches { found: unmatched };
    }
    let n_rows: usize = left_pyramid[0].height;
    if n_rows == 0 || n_right == 0 {
        return StereoMatches { found: unmatched };
    }
    let table = row_table(right_bands, n_rows);
    let left_columns = columns(left);
    let right_columns = columns(right);
    let mut found: Vec<Option<(Vec2F32, u32)>> = Vec::new();
    let mut il: usize = 0;
    while il < n_left
        invariant
            il <= n_left,
            can_locate(*geometry),
            is_consistent(scene),
            scene == (StereoScene {
                left_pyramid: left_pyramid@,
                right_pyramid: right_pyramid@,
                left: *left,
                right: *right,
                left_keypoints: left_keypoints@,
                right_bands: right_bands@,
                config: *config,
            }),
            n_left == keypoint_count(*left),
            n_right == keypoint_count(*right),
            left_columns@ == column_bits(*left),
            right_columns@ == column_bits(*right),
            left_columns@.len() == n_left,
            right_columns@.len() == n_right,
            left_pyramid@.len() > 0,
            n_rows == left_pyramid@[0].height,
            0 < n_rows <= i32::MAX,
            table@.len() == n_rows,
            forall|y: int|
                0 <= y < n_rows ==> #[trigger] table@[y]@ == indices_where(
                    right_bands@.len(),
                    |ir: int| covers(right_bands@[ir], y),
                ),
            found@.len() == il,
            forall|i: int|
                0 <= i < il ==> is_left_match(scene, *geometry, i as usize, #[trigger] found@[i]),
        decreases n_left - il,
    {
        let kp = &left_keypoints[il];
        let row: usize = if kp.row < 0 {
            0
        } else if (kp.row as usize) < n_rows {
            kp.row as usize
        } else {
            n_rows - 1
        };
        proof {
            let y = clamped_row(kp.row, n_rows as nat);
            assert(row == y);
            crate::selection::lemma_indices_where_agree(
                right_bands@.len(),
                |ir: int| covers(right_bands@[ir], row as int),
                |ir: int|
                    covers(
                        scene.right_bands[ir],
                        clamped_row(
                            scene.left_keypoints[il as int].row,
                            scene.left_pyramid[0].height as nat,
                        ),
                    ),
            );
        }
        let entry = match_left(
            left_pyramid,
            right_pyramid,
            left,
            right,
            kp,
            &left_columns,
            &right_columns,
            &table[row],
            config,
            geometry,
            il,
            Ghost(scene),
        );
        found.push(entry);
        il += 1;
    }
    match upper_median(&list_sads(&found)) {
        None => {
            assert(found@.len() == keypoint_count(scene.left));
            StereoMatches { found: unmatched }
        },
        Some(median) => {
            let left = drop_outliers(&found, median);
            assert(is_median(found_sads(found@), median));
            StereoMatches { found: left }
        },
    }
}

/// Back-projects every keypoint with a stereo match into the camera frame, returning
/// `(keypoint_idx, point_in_camera_frame)`.
///
/// `unproject` gives the point of a keypoint, from its match and depth.
pub fn unproject_stereo<U: Fn(usize, &Vec2F32) -> Vec3F64>(frame: &Frame, unproject: U) -> (points:
    Vec<(usize, Vec3F64)>)
    requires
        forall|i: usize, found: &Vec2F32| call_requires(unproject, (i, found)),
    ensures
        points@.map_values(|p: (usize, Vec3F64)| p.0) == indices_where(
            keypoint_count(frame.features),
            |i: int| i < frame.stereo@.len() && frame.stereo@[i] is Some,
        ),
        forall|j: int|
            0 <= j < points@.len() ==> call_ensures(
                unproject,
                (points@[j].0, &frame.stereo@[points@[j].0 as int]->0),
                (#[trigger] points@[j]).1,
            ),
{
    let n: usize = count_keypoints(&frame.features);
    let ghost matched = |i: int| i < frame.stereo@.len() && frame.stereo@[i] is Some;
    let ghost index = |p: (usize, Vec3F64)| p.0;
    let mut points: Vec<(usize, Vec3F64)> = Vec::new();
    let mut i: usize = 0;
    assert(points@.map_values(index) =~= Seq::empty());
    while i < n
        invariant
            i <= n,
            forall|i: usize, found: &Vec2F32| call_requires(unproject, (i, found)),
            matched == (|i: int| i < frame.stereo@.len() && frame.stereo@[i] is Some),
            index == (|p: (usize, Vec3F64)| p.0),
            points@.map_values(index) == indices_where(i as nat, matched),
            forall|j: int|
                0 <= j < points@.len() ==> call_ensures(
                    unproject,
                    (points@[j].0, &frame.stereo@[points@[j].0 as int]->0),
                    (#[trigger] points@[j]).1,
                ),
        decreases n - i,
    {
        if let Some(found) = frame.stereo_depth(i) {
            let point = unproject(i, &found);
            let ghost before = points@;
            points.push((i, point));
            assert(points@.map_values(index) =~= before.map_values(index).push(i));
        }
        i += 1;
    }
    points
}

proof fn lemma_row_sad_swaps(
    left: GrayImage<'_>,
    right: GrayImage<'_>,
    other: GrayImage<'_>,
    v: int,
    ul: int,
    ur: int,
    n: nat,
    du: int,
)
    requires
        forall|c: int|
            0 <= c < n && c != du ==> #[trigger] other.at(v, ur + c) == right.at(v, ur + c),
    ensures
        row_sad(left, other, v, ul, ur, n) - row_sad(left, right, v, ul, ur, n) == (if 0 <= du < n {
            abs_diff(left.at(v, ul + du), other.at(v, ur + du)) - abs_diff(
                left.at(v, ul + du),
                right.at(v, ur + du),
            )
        } else {
            0int
        }),
    decreases n,
{
    if n > 0 {
        lemma_row_sad_swaps(left, right, other, v, ul, ur, (n - 1) as nat, du);
        let c = n - 1;
        assert(ul + n - 1 == ul + c && ur + n - 1 == ur + c);
        if c != du {
            assert(other.at(v, ur + c) == right.at(v, ur + c));
        }
    }
}

proof fn lemma_block_sad_swaps(
    left: GrayImage<'_>,
    right: GrayImage<'_>,
    other: GrayImage<'_>,
    v: int,
    ul: int,
    ur: int,
    n: nat,
    dv: int,
    du: int,
)
    requires
        0 <= du < SAD_WINDOW,
        forall|r: int, c: int|
            0 <= r < n && 0 <= c < SAD_WINDOW && !(r == dv && c == du) ==> #[trigger] other.at(
                v + r,
                ur + c,
            ) == right.at(v + r, ur + c),
    ensures
        block_sad(left, other, v, ul, ur, n) - block_sad(left, right, v, ul, ur, n) == (if 0 <= dv
            < n {
            abs_diff(left.at(v + dv, ul + du), other.at(v + dv, ur + du)) - abs_diff(
                left.at(v + dv, ul + du),
                right.at(v + dv, ur + du),
            )
        } else {
            0int
        }),
    decreases n,
{
    if n > 0 {
        lemma_block_sad_swaps(left, right, other, v, ul, ur, (n - 1) as nat, dv, du);
        let r = n - 1;
        assert(v + n - 1 == v + r);
        let changed = if r == dv {
            du
        } else {
            -1
        };
        assert forall|c: int| 0 <= c < SAD_WINDOW && c != changed implies #[trigger] other.at(
            v + r,
            ur + c,
        ) == right.at(v + r, ur + c) by {}
        lemma_row_sad_swaps(
            left,
            right,
            other,
            v + r,
            ul,
            ur,
            SAD_WINDOW as nat,
            changed,
        );
    }
}

/// Every pixel of a patch counts once, by how far it is from the pixel at the same place of the
/// other patch: where two right images agree on the patch but for one pixel, the SADs differ
/// by as much as the distances at that pixel do.
pub proof fn lemma_patch_sad_counts_each_pixel(
    left: GrayImage<'_>,
    right: GrayImage<'_>,
    other: GrayImage<'_>,
    v: int,
    ul: int,
    ur: int,
    dv: int,
    du: int,
)
    requires
        -5 <= dv <= 5,
        -5 <= du <= 5,
        forall|r: int, c: int|
            -5 <= r <= 5 && -5 <= c <= 5 && !(r == dv && c == du) ==> #[trigger] other.at(
                v + r,
                ur + c,
            ) == right.at(v + r, ur + c),
    ensures
        ({
            let at = left.at(v + dv, ul + du);
            let was = right.at(v + dv, ur + du);
            let is = other.at(v + dv, ur + du);
            patch_sad(left, other, v, ul, ur) - patch_sad(left, right, v, ul, ur) == (if at >= is {
                at - is
            } else {
                is - at
            }) - (if at >= was {
                at - was
            } else {
                was - at
            })
        }),
{
    assert forall|r: int, c: int|
        0 <= r < SAD_WINDOW && 0 <= c < SAD_WINDOW && !(r == dv + 5 && c == du
            + 5) implies #[trigger] other.at(v - 5 + r, ur - 5 + c) == right.at(
        v - 5 + r,
        ur - 5 + c,
    ) by {
        let (r2, c2) = (r - 5, c - 5);
        assert(v - 5 + r == v + r2 && ur - 5 + c == ur + c2);
        assert(other.at(v + r2, ur + c2) == right.at(v + r2, ur + c2));
    }
    lemma_block_sad_swaps(
        left,
        right,
        other,
        v - 5,
        ul - 5,
        ur - 5,
        SAD_WINDOW as nat,
        dv + 5,
        du + 5,
    );
    assert(v - 5 + (dv + 5) == v + dv && ul - 5 + (du + 5) == ul + du && ur - 5 + (du + 5) == ur
        + du);
}

proof fn lemma_row_sad_zero(
    left: GrayImage<'_>,
    right: GrayImage<'_>,
    v: int,
    ul: int,
    ur: int,
    n: nat,
)
    ensures
        row_sad(left, right, v, ul, ur, n) == 0 <==> forall|c: int|
            0 <= c < n ==> #[trigger] left.at(v, ul + c) == right.at(v, ur + c),
    decreases n,
{
    if n > 0 {
        lemma_row_sad_zero(left, right, v, ul, ur, (n - 1) as nat);
        let d = n - 1;
        assert(ul + n - 1 == ul + d && ur + n - 1 == ur + d);
        if row_sad(left, right, v, ul, ur, n) == 0 {
            assert forall|c: int| 0 <= c < n implies #[trigger] left.at(v, ul + c) == right.at(
                v,
                ur + c,
            ) by {}
        }
        if forall|c: int| 0 <= c < n ==> #[trigger] left.at(v, ul + c) == right.at(v, ur + c) {
            assert(left.at(v, ul + d) == right.at(v, ur + d));
        }
    }
}

proof fn lemma_block_sad_zero(
    left: GrayImage<'_>,
    right: GrayImage<'_>,
    v: int,
    ul: int,
    ur: int,
    n: nat,
)
    ensures
        block_sad(left, right, v, ul, ur, n) == 0 <==> forall|r: int, c: int|
            0 <= r < n && 0 <= c < SAD_WINDOW ==> #[trigger] left.at(v + r, ul + c) == right.at(
                v + r,
                ur + c,
            ),
    decreases n,
{
    if n > 0 {
        lemma_block_sad_zero(left, right, v, ul, ur, (n - 1) as nat);
        let d = n - 1;
        assert(v + n - 1 == v + d);
        lemma_row_sad_zero(left, right, v + d, ul, ur, SAD_WINDOW as nat);
        if block_sad(left, right, v, ul, ur, n) == 0 {
            assert forall|r: int, c: int| 0 <= r < n && 0 <= c < SAD_WINDOW implies #[trigger] left.at(
                v + r,
                ul + c,
            ) == right.at(v + r, ur + c) by {
                if r == d {
                    assert(left.at(v + d, ul + c) == right.at(v + d, ur + c));
                }
            }
        }
        if forall|r: int, c: int|
            0 <= r < n && 0 <= c < SAD_WINDOW ==> #[trigger] left.at(v + r, ul + c) == right.at(
                v + r,
                ur + c,
            ) {
            assert forall|c: int| 0 <= c < SAD_WINDOW implies #[trigger] left.at(v + d, ul + c)
                == right.at(v + d, ur + c) by {}
        }
    }
}

/// The patches around two places in the same rows are equal, pixel by pixel.
pub open spec fn patches_agree(
    left: GrayImage<'_>,
    right: GrayImage<'_>,
    v: int,
    ul: int,
    ur: int,
) -> bool {
    forall|r: int, c: int|
        -5 <= r <= 5 && -5 <= c <= 5 ==> #[trigger] left.at(v + r, ul + c) == right.at(
            v + r,
            ur + c,
        )
}

/// The SAD of two patches is zero where they are equal, eleven by eleven pixels, and nowhere
/// else.
pub proof fn lemma_patch_sad_zero(
    left: GrayImage<'_>,
    right: GrayImage<'_>,
    v: int,
    ul: int,
    ur: int,
)
    ensures
        patch_sad(left, right, v, ul, ur) == 0 <==> patches_agree(left, right, v, ul, ur),
{
    lemma_block_sad_zero(left, right, v - 5, ul - 5, ur - 5, SAD_WINDOW as nat);
    if patch_sad(left, right, v, ul, ur) == 0 {
        assert forall|r: int, c: int| -5 <= r <= 5 && -5 <= c <= 5 implies #[trigger] left.at(
            v + r,
            ul + c,
        ) == right.at(v + r, ur + c) by {
            let (r2, c2) = (r + 5, c + 5);
            assert(v - 5 + r2 == v + r && ul - 5 + c2 == ul + c && ur - 5 + c2 == ur + c);
            assert(left.at(v - 5 + r2, ul - 5 + c2) == right.at(v - 5 + r2, ur - 5 + c2));
        }
    }
    if forall|r: int, c: int|
        -5 <= r <= 5 && -5 <= c <= 5 ==> #[trigger] left.at(v + r, ul + c) == right.at(
            v + r,
            ur + c,
        ) {
        assert forall|r: int, c: int|
            0 <= r < SAD_WINDOW && 0 <= c < SAD_WINDOW implies #[trigger] left.at(
            v - 5 + r,
            ul - 5 + c,
        ) == right.at(v - 5 + r, ur - 5 + c) by {
            let (r2, c2) = (r - 5, c - 5);
            assert(v - 5 + r == v + r2 && ul - 5 + c == ul + c2 && ur - 5 + c == ur + c2);
            assert(left.at(v + r2, ul + c2) == right.at(v + r2, ur + c2));
        }
    }
}

/// The sliding search compares the left patch with the right ones at up to five columns to
/// either side, all of them inside the images. It gives the first of the best places and the
/// SADs there and at the columns next to it, unless that place is at an end of the search.
pub proof fn lemma_sad_optimum(
    left: GrayImage<'_>,
    right: GrayImage<'_>,
    v: int,
    ul: int,
    ur: i32,
)
    ensures
        match sad_optimum(left, right, v, ul, ur) {
            Some(o) => {
                &&& 5 <= v && v + 5 < left.height && v + 5 < right.height
                &&& 5 <= ul && ul + 5 < left.width
                &&& 10 <= ur && ur + 11 < right.width
                &&& o.start == ur
                &&& -5 < o.offset < 5
                &&& o.before == patch_sad(left, right, v, ul, ur + o.offset - 1)
                &&& o.best == patch_sad(left, right, v, ul, ur + o.offset)
                &&& o.after == patch_sad(left, right, v, ul, ur + o.offset + 1)
                &&& forall|d: int|
                    -5 <= d <= 5 ==> o.best <= #[trigger] patch_sad(left, right, v, ul, ur + d)
                &&& forall|d: int|
                    -5 <= d < o.offset ==> o.best < #[trigger] patch_sad(left, right, v, ul, ur + d)
            },
            None => {
                ||| !(5 <= v && v + 5 < left.height && v + 5 < right.height)
                ||| !(5 <= ul && ul + 5 < left.width)
                ||| !(10 <= ur && ur + 11 < right.width)
                ||| forall|d: int|
                    -5 <= d <= 5 ==> patch_sad(left, right, v, ul, ur - 5) <= #[trigger] patch_sad(
                        left,
                        right,
                        v,
                        ul,
                        ur + d,
                    )
                ||| forall|d: int|
                    -5 <= d < 5 ==> patch_sad(left, right, v, ul, ur + 5) < #[trigger] patch_sad(
                        left,
                        right,
                        v,
                        ul,
                        ur + d,
                    )
            },
        },
{
    let sads = sliding_sads(left, right, v, ul, ur as int);
    lemma_first_min(sads, SAD_PLACES as nat);
    let best = first_min(sads, SAD_PLACES as nat);
    assert forall|d: int| -5 <= d <= 5 implies sads[best] <= #[trigger] patch_sad(
        left,
        right,
        v,
        ul,
        ur + d,
    ) && (d + 5 < best ==> sads[best] < patch_sad(left, right, v, ul, ur + d)) by {
        let i = d + 5;
        assert(sads[i] == patch_sad(left, right, v, ul, ur + d));
    }
    lemma_patch_sad_bound(left, right, v, ul, ur - SAD_SEARCH_RANGE + best - 1);
    lemma_patch_sad_bound(left, right, v, ul, ur - SAD_SEARCH_RANGE + best);
    lemma_patch_sad_bound(left, right, v, ul, ur - SAD_SEARCH_RANGE + best + 1);
    assert(sads[best] == patch_sad(left, right, v, ul, ur - 5 + best));
    if 0 < best < SAD_PLACES - 1 {
        assert(sads[best - 1] == patch_sad(left, right, v, ul, ur - 5 + (best - 1)));
        assert(sads[best + 1] == patch_sad(left, right, v, ul, ur - 5 + (best + 1)));
    }
}

/// Where the right image shows the left patch at one place within the search, not at an end,
/// and equal to it nowhere else in the search, the search finds that place, with a SAD of zero.
pub proof fn lemma_shifted_patch_is_found(
    left: GrayImage<'_>,
    right: GrayImage<'_>,
    v: int,
    ul: int,
    ur: i32,
    d: int,
)
    requires
        5 <= v && v + 5 < left.height && v + 5 < right.height,
        5 <= ul && ul + 5 < left.width,
        10 <= ur && ur + 11 < right.width,
        -5 < d < 5,
        patches_agree(left, right, v, ul, ur + d),
        forall|e: int|
            -5 <= e <= 5 && e != d ==> !#[trigger] patches_agree(left, right, v, ul, ur + e),
    ensures
        sad_optimum(left, right, v, ul, ur) is Some,
        sad_optimum(left, right, v, ul, ur)->0.offset == d,
        sad_optimum(left, right, v, ul, ur)->0.start == ur,
        sad_optimum(left, right, v, ul, ur)->0.best == 0,
{
    lemma_patch_sad_zero(left, right, v, ul, ur + d);
    assert forall|e: int| -5 <= e <= 5 && e != d implies #[trigger] patch_sad(
        left,
        right,
        v,
        ul,
        ur + e,
    ) > 0 by {
        lemma_patch_sad_zero(left, right, v, ul, ur + e);
        assert(!patches_agree(left, right, v, ul, ur + e));
    }
    lemma_sad_optimum(left, right, v, ul, ur);
    assert(patch_sad(left, right, v, ul, ur + d) == 0);
    assert(patch_sad(left, right, v, ul, ur + -5) > 0);
    assert(ur + -5 == ur - 5);
    assert(patch_sad(left, right, v, ul, ur + 5) > 0);
}

/// A left keypoint is refined on the level of the pyramids that its octave names: the SAD of its
/// match is that of the patch around it in the left image of that level and of the patch at
/// the place found in the right image of that level, within four columns of where the coarse
/// match is at that scale; and no place of the search has a smaller one. The position follows
/// from that place: it is none unless the disparity is at least zero and less than the largest,
/// and a disparity of zero is replaced by the smallest.
pub proof fn lemma_refined_on_the_level_of_the_octave<U, N, S, P>(
    scene: StereoScene<'_>,
    geometry: StereoGeometry<U, N, S, P>,
    il: usize,
    ir: usize,
    at: Vec2F32,
    sad: u32,
) where
    U: Fn(usize, usize) -> i32,
    N: Fn(usize, usize, SadOptimum) -> Vec2F32,
    S: Fn(usize) -> Vec2F32,
    P: Fn(&Vec2F32) -> Vec2F32,

    requires
        is_fine_match(scene, geometry, il, ir, Some((at, sad))),
    ensures
        ({
            let o = octaves_of(scene.left)[il as int] as int;
            let kp = scene.left_keypoints[il as int];
            let (v, u) = (kp.scaled_v as int, kp.scaled_u as int);
            let left = scene.left_pyramid[o];
            let right = scene.right_pyramid[o];
            &&& o < scene.left_pyramid.len()
            &&& o < scene.right_pyramid.len()
            &&& exists|start: i32, optimum: SadOptimum, refined: Vec2F32|
                {
                    &&& #[trigger] call_ensures(geometry.scaled_right, (ir, o as usize), start)
                    &&& #[trigger] call_ensures(
                        geometry.refine,
                        (il, o as usize, optimum),
                        refined,
                    )
                    &&& optimum.start == start
                    &&& -5 < optimum.offset < 5
                    &&& optimum.best == sad
                    &&& sad == patch_sad(left, right, v, u, start + optimum.offset)
                    &&& optimum.before == patch_sad(left, right, v, u, start + optimum.offset - 1)
                    &&& optimum.after == patch_sad(left, right, v, u, start + optimum.offset + 1)
                    &&& forall|d: int|
                        -5 <= d <= 5 ==> sad <= #[trigger] patch_sad(left, right, v, u, start + d)
                    &&& at_least(y_of(refined), Some(0))
                    &&& above(number(geometry.max_disparity), y_of(refined))
                    &&& above(y_of(refined), Some(0)) ==> call_ensures(
                        geometry.place,
                        (&refined,),
                        at,
                    )
                    &&& y_of(refined) == Some(0int) ==> exists|used: Vec2F32|
                        {
                            &&& call_ensures(geometry.smallest, (il,), used)
                            &&& #[trigger] call_ensures(geometry.place, (&used,), at)
                        }
                }
        }),
{
    let octave = octaves_of(scene.left)[il as int] as usize;
    let kp = scene.left_keypoints[il as int];
    let left = scene.left_pyramid[octave as int];
    let right = scene.right_pyramid[octave as int];
    let found = Some((at, sad));
    let start = choose|start: i32|
        {
            &&& #[trigger] call_ensures(geometry.scaled_right, (ir, octave), start)
            &&& match sad_optimum(left, right, kp.scaled_v as int, kp.scaled_u as int, start) {
                None => found is None,
                Some(optimum) => exists|refined: Vec2F32, at: Option<Vec2F32>|
                    {
                        &&& #[trigger] call_ensures(
                            geometry.refine,
                            (il, octave, optimum),
                            refined,
                        )
                        &&& #[trigger] is_place(
                            geometry.max_disparity,
                            geometry.smallest,
                            geometry.place,
                            il,
                            refined,
                            at,
                        )
                        &&& found == match at {
                            None => None,
                            Some(at) => Some((at, optimum.best)),
                        }
                    },
            }
        };
    lemma_sad_optimum(left, right, kp.scaled_v as int, kp.scaled_u as int, start);
    let optimum = sad_optimum(left, right, kp.scaled_v as int, kp.scaled_u as int, start)->0;
    let (refined, placed) = choose|refined: Vec2F32, placed: Option<Vec2F32>|
        {
            &&& #[trigger] call_ensures(geometry.refine, (il, octave, optimum), refined)
            &&& #[trigger] is_place(
                geometry.max_disparity,
                geometry.smallest,
                geometry.place,
                il,
                refined,
                placed,
            )
            &&& found == match placed {
                None => None,
                Some(at) => Some((at, optimum.best)),
            }
        };
    assert(placed == Some(at));
    assert(call_ensures(geometry.refine, (il, octave as int as usize, optimum), refined));
}

/// Only the level that the octave of a keypoint names matters to its match, besides the height
/// of the lowest level: scenes that differ in other levels admit the same matches.
pub proof fn lemma_other_levels_do_not_matter<U, N, S, P>(
    scene: StereoScene<'_>,
    geometry: StereoGeometry<U, N, S, P>,
    other: StereoScene<'_>,
    il: usize,
    found: Option<(Vec2F32, u32)>,
) where
    U: Fn(usize, usize) -> i32,
    N: Fn(usize, usize, SadOptimum) -> Vec2F32,
    S: Fn(usize) -> Vec2F32,
    P: Fn(&Vec2F32) -> Vec2F32,

    requires
        other.left == scene.left,
        other.right == scene.right,
        other.left_keypoints == scene.left_keypoints,
        other.right_bands == scene.right_bands,
        other.config == scene.config,
        other.left_pyramid.len() == scene.left_pyramid.len(),
        other.right_pyramid.len() == scene.right_pyramid.len(),
        other.left_pyramid[0].height == scene.left_pyramid[0].height,
        ({
            let o = octaves_of(scene.left)[il as int] as int;
            &&& o < scene.left_pyramid.len() ==> other.left_pyramid[o] == scene.left_pyramid[o]
            &&& o < scene.right_pyramid.len() ==> other.right_pyramid[o]
                == scene.right_pyramid[o]
        }),
    ensures
        is_left_match(scene, geometry, il, found) <==> is_left_match(other, geometry, il, found),
{
    lemma_coarse_agrees(scene, other, il as int, keypoint_count(scene.right));
}

proof fn lemma_coarse_agrees(
    scene: StereoScene<'_>,
    other: StereoScene<'_>,
    il: int,
    n: nat,
)
    requires
        other.left == scene.left,
        other.right == scene.right,
        other.left_keypoints == scene.left_keypoints,
        other.right_bands == scene.right_bands,
        other.config == scene.config,
        other.left_pyramid[0].height == scene.left_pyramid[0].height,
    ensures
        coarse_match(scene, il, n) == coarse_match(other, il, n),
    decreases n,
{
    if n > 0 {
        lemma_coarse_agrees(scene, other, il, (n - 1) as nat);
    }
}

/// The right keypoint can match the left one: its rows hold that of the left one, brought into
/// the image; its octave is the same or next to it; and it is not right of the left one, nor
/// left of the disparity band.
pub open spec fn may_match(scene: StereoScene<'_>, il: int, ir: int) -> bool {
    let n_rows = scene.left_pyramid[0].height as int;
    let row = scene.left_keypoints[il].row as int;
    let y = if row < 0 {
        0
    } else if row > n_rows - 1 {
        n_rows - 1
    } else {
        row
    };
    let u = number(column_bits(scene.right)[ir]);
    let (a, b) = (octaves_of(scene.left)[il] as int, octaves_of(scene.right)[ir] as int);
    &&& scene.right_bands[ir].first <= y <= scene.right_bands[ir].last
    &&& -1 <= a - b <= 1
    &&& at_least(u, number(scene.left_keypoints[il].min_u))
    &&& at_least(number(column_bits(scene.left)[il]), u)
}

/// The right keypoint can match the left one, and its descriptor is nearer than both thresholds.
pub open spec fn may_be_refined(scene: StereoScene<'_>, il: int, ir: int) -> bool {
    let gap = hamming(descriptors_of(scene.left)[il]@, descriptors_of(scene.right)[ir]@);
    &&& 0 <= ir < keypoint_count(scene.right)
    &&& may_match(scene, il, ir)
    &&& gap < scene.config.th_high
    &&& gap < scene.config.th_orb_dist
}

proof fn lemma_coarse_is_first(scene: StereoScene<'_>, il: int, n: nat)
    requires
        n <= usize::MAX,
    ensures
        match coarse_match(scene, il, n) {
            None => true,
            Some(ir) => forall|j: int|
                0 <= j < ir && is_candidate(scene, il, j) ==> descriptor_gap(scene, il, ir as int)
                    < #[trigger] descriptor_gap(scene, il, j),
        },
    decreases n,
{
    if n > 0 {
        lemma_coarse_match(scene, il, (n - 1) as nat);
        lemma_coarse_is_first(scene, il, (n - 1) as nat);
    }
}

/// The coarse match of a left keypoint is the first of the right keypoints that can match it
/// whose descriptors are nearest, and it is refined where its descriptor is nearer than both
/// thresholds. Where no right keypoint that can match is as near, or the left keypoint is left
/// of the image, there is no match.
pub proof fn lemma_coarse_candidate<U, N, S, P>(
    scene: StereoScene<'_>,
    geometry: StereoGeometry<U, N, S, P>,
    il: usize,
    found: Option<(Vec2F32, u32)>,
) where
    U: Fn(usize, usize) -> i32,
    N: Fn(usize, usize, SadOptimum) -> Vec2F32,
    S: Fn(usize) -> Vec2F32,
    P: Fn(&Vec2F32) -> Vec2F32,

    requires
        is_left_match(scene, geometry, il, found),
        keypoint_count(scene.right) <= usize::MAX,
        0 < scene.left_pyramid[0].height,
    ensures
        ({
            let n = keypoint_count(scene.right);
            let mine = descriptors_of(scene.left)[il as int]@;
            let theirs = descriptors_of(scene.right);
            let is_left_of_image = above(Some(0), number(column_bits(scene.left)[il as int]));
            &&& is_left_of_image ==> found is None
            &&& (forall|ir: int| !#[trigger] may_be_refined(scene, il as int, ir)) ==> found is None
            &&& !is_left_of_image && (exists|ir: int| #[trigger] may_be_refined(scene, il as int, ir)) ==> exists|ir: usize|
                {
                    &&& may_be_refined(scene, il as int, ir as int)
                    &&& #[trigger] is_fine_match(scene, geometry, il, ir, found)
                    &&& forall|j: int|
                        0 <= j < n && may_match(scene, il as int, j) ==> hamming(
                            mine,
                            theirs[ir as int]@,
                        ) <= hamming(mine, #[trigger] theirs[j]@)
                    &&& forall|j: int|
                        0 <= j < ir && may_match(scene, il as int, j) ==> hamming(
                            mine,
                            theirs[ir as int]@,
                        ) < hamming(mine, #[trigger] theirs[j]@)
                }
        }),
{
    let n = keypoint_count(scene.right);
    let mine = descriptors_of(scene.left)[il as int]@;
    let theirs = descriptors_of(scene.right);
    lemma_coarse_match(scene, il as int, n);
    lemma_coarse_is_first(scene, il as int, n);
    assert forall|j: int| #[trigger] is_candidate(scene, il as int, j) == may_match(
        scene,
        il as int,
        j,
    ) && descriptor_gap(scene, il as int, j) == hamming(mine, theirs[j]@) by {}
    let coarse = coarse_match(scene, il as int, n);
    if coarse is Some && descriptor_gap(scene, il as int, coarse->0 as int)
        < scene.config.th_orb_dist {
        let ir = coarse->0;
        assert(is_candidate(scene, il as int, ir as int));
        assert(may_be_refined(scene, il as int, ir as int));
    } else {
        assert forall|ir: int| !#[trigger] may_be_refined(scene, il as int, ir) by {
            if may_be_refined(scene, il as int, ir) {
                assert(is_candidate(scene, il as int, ir));
                assert(descriptor_gap(scene, il as int, ir) < scene.config.th_high);
            }
        }
    }
    if coarse is Some {
        let ir = coarse->0;
        assert forall|j: int| 0 <= j < n && may_match(scene, il as int, j) implies hamming(
            mine,
            theirs[ir as int]@,
        ) <= hamming(mine, #[trigger] theirs[j]@) by {
            assert(is_candidate(scene, il as int, j));
            assert(descriptor_gap(scene, il as int, ir as int) <= descriptor_gap(
                scene,
                il as int,
                j,
            ));
        }
        assert forall|j: int| 0 <= j < ir && may_match(scene, il as int, j) implies hamming(
            mine,
            theirs[ir as int]@,
        ) < hamming(mine, #[trigger] theirs[j]@) by {
            assert(is_candidate(scene, il as int, j));
            assert(descriptor_gap(scene, il as int, ir as int) < descriptor_gap(
                scene,
                il as int,
                j,
            ));
        }
    }
}

proof fn lemma_count_sads(found: Seq<Option<(Vec2F32, u32)>>, x: int)
    ensures
        ({
            let placed = found.filter(|entry: Option<(Vec2F32, u32)>| entry is Some);
            &&& found_sads(found).len() == placed.len()
            &&& crate::median::count_less(found_sads(found), x) == placed.filter(
                |entry: Option<(Vec2F32, u32)>| (entry->0).1 < x,
            ).len()
        }),
    decreases found.len(),
{
    reveal(Seq::filter);
    let is_placed = |entry: Option<(Vec2F32, u32)>| entry is Some;
    let is_less = |entry: Option<(Vec2F32, u32)>| (entry->0).1 < x;
    if found.len() > 0 {
        let head = found.drop_last();
        lemma_count_sads(head, x);
        if found.last() is Some {
            assert(found_sads(found).drop_last() =~= found_sads(head));
            assert(found.filter(is_placed).drop_last() =~= head.filter(is_placed));
        }
    } else {
        assert(found.filter(is_placed).filter(is_less).len() == 0);
    }
}

/// Where anything is matched at all, there is a place per left keypoint, and a SAD that is the
/// median of theirs: at most half are less, and more than half no greater. A left keypoint
/// keeps its place where its SAD is less than 2.1 times the median, and has none otherwise.
pub proof fn lemma_outliers_are_dropped<U, N, S, P>(
    scene: StereoScene<'_>,
    geometry: StereoGeometry<U, N, S, P>,
    matches: Seq<Option<Vec2F32>>,
) where
    U: Fn(usize, usize) -> i32,
    N: Fn(usize, usize, SadOptimum) -> Vec2F32,
    S: Fn(usize) -> Vec2F32,
    P: Fn(&Vec2F32) -> Vec2F32,

    requires
        is_stereo_result(scene, geometry, matches),
        exists|i: int| 0 <= i < matches.len() && #[trigger] matches[i] is Some,
    ensures
        matches.len() == keypoint_count(scene.left),
        exists|found: Seq<Option<(Vec2F32, u32)>>, median: u64|
            {
                let placed = found.filter(|entry: Option<(Vec2F32, u32)>| entry is Some);
                &&& found.len() == matches.len()
                &&& forall|il: int|
                    0 <= il < found.len() ==> is_left_match(
                        scene,
                        geometry,
                        il as usize,
                        #[trigger] found[il],
                    )
                &&& #[trigger] is_median(found_sads(found), median)
                &&& placed.filter(
                    |entry: Option<(Vec2F32, u32)>| (entry->0).1 < median as int,
                ).len() <= placed.len() / 2
                &&& placed.filter(|entry: Option<(Vec2F32, u32)>| (entry->0).1 < median + 1).len()
                    > placed.len() / 2
                &&& forall|il: int|
                    0 <= il < found.len() ==> #[trigger] matches[il] == (if found[il] is Some && 10
                        * (found[il]->0).1 < 21 * median {
                        Some((found[il]->0).0)
                    } else {
                        None
                    })
            },
{
    let n = keypoint_count(scene.left);
    let found = choose|found: Seq<Option<(Vec2F32, u32)>>|
        {
            &&& found.len() == n
            &&& forall|il: int|
                0 <= il < n ==> is_left_match(scene, geometry, il as usize, #[trigger] found[il])
            &&& if found_sads(found).len() == 0 {
                matches == Seq::new(n, |i: int| None::<Vec2F32>)
            } else {
                exists|median: u64| #[trigger]
                    is_median(found_sads(found), median) && matches == without_outliers(
                        found,
                        median,
                    )
            }
        };
    let i = choose|i: int| 0 <= i < matches.len() && #[trigger] matches[i] is Some;
    assert(found_sads(found).len() > 0);
    let median = choose|median: u64| #[trigger]
        is_median(found_sads(found), median) && matches == without_outliers(found, median);
    lemma_count_sads(found, median as int);
    lemma_count_sads(found, median + 1);
}

/// The number of matches is the number of entries that there are.
pub proof fn lemma_count_found(found: Seq<Option<Vec2F32>>)
    ensures
        count_found(found) == found.filter(|entry: Option<Vec2F32>| entry is Some).len(),
    decreases found.len(),
{
    reveal(Seq::filter);
    if found.len() > 0 {
        lemma_count_found(found.drop_last());
    }
}

/// A refined match has a place exactly where its disparity is a number that is not negative and
/// less than the largest. The place is the one that follows from the refined match where the
/// disparity is positive, and from the smallest disparity where it is zero.
pub proof fn lemma_place_is_owed<S, P>(
    max_disparity: u32,
    smallest: S,
    place: P,
    il: usize,
    refined: Vec2F32,
    at: Option<Vec2F32>,
) where S: Fn(usize) -> Vec2F32, P: Fn(&Vec2F32) -> Vec2F32
    requires
        is_place(max_disparity, smallest, place, il, refined, at),
        number(max_disparity) is Some,
    ensures
        at is Some <==> y_of(refined) is Some && 0 <= y_of(refined)->0 < number(max_disparity)->0,
        at is Some && y_of(refined)->0 > 0 ==> call_ensures(place, (&refined,), at->0),
        at is Some && y_of(refined)->0 == 0 ==> exists|used: Vec2F32|
            {
                &&& call_ensures(smallest, (il,), used)
                &&& #[trigger] call_ensures(place, (&used,), at->0)
            },
{
}

/// A coarse match that can be told in one way only has a place where the search finds one and the
/// disparity that follows is usable: a match is not lost once its patch is found.
pub proof fn lemma_fine_match_is_owed<U, N, S, P>(
    scene: StereoScene<'_>,
    geometry: StereoGeometry<U, N, S, P>,
    il: usize,
    ir: usize,
    found: Option<(Vec2F32, u32)>,
    start: i32,
    optimum: SadOptimum,
) where
    U: Fn(usize, usize) -> i32,
    N: Fn(usize, usize, SadOptimum) -> Vec2F32,
    S: Fn(usize) -> Vec2F32,
    P: Fn(&Vec2F32) -> Vec2F32,

    requires
        is_fine_match(scene, geometry, il, ir, found),
        number(geometry.max_disparity) is Some,
        ({
            let o = octaves_of(scene.left)[il as int] as int;
            let kp = scene.left_keypoints[il as int];
            &&& o < scene.left_pyramid.len()
            &&& o < scene.right_pyramid.len()
            &&& forall|said: i32| #[trigger]
                call_ensures(geometry.scaled_right, (ir, o as usize), said) ==> said == start
            &&& sad_optimum(
                scene.left_pyramid[o],
                scene.right_pyramid[o],
                kp.scaled_v as int,
                kp.scaled_u as int,
                start,
            ) == Some(optimum)
            &&& forall|refined: Vec2F32| #[trigger]
                call_ensures(geometry.refine, (il, o as usize, optimum), refined) ==> y_of(
                    refined,
                ) is Some && 0 <= y_of(refined)->0 < number(geometry.max_disparity)->0
        }),
    ensures
        found is Some,
        (found->0).1 == optimum.best,
{
    let octave = octaves_of(scene.left)[il as int] as usize;
    assert(octave as int as usize == octave);
}

} // verus!
