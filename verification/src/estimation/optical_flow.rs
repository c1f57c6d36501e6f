//! Persistent optical-flow track state and map-point associations.

use crate::double::{above, at_least};
use crate::geometry::{
    corner_of, difference, image_corner, is_within, lies_within, pixel_length, pixel_length_bits,
    squared_bits, squared_length, subtract, x_bits, x_of, y_bits, y_of,
};
use crate::gray_image::GrayImage;
use crate::single::{is_above, is_at_least, number};
use kornia_algebra::Vec2F32;
use kornia_image::{Image, ImageSize};
use kornia_imgproc::optical_flow_pyr_lk::{calc_optical_flow_pyr_lk, PyrLKError, PyrLKParams};
use std::collections::HashMap;
use vstd::prelude::*;

verus! {

broadcast use vstd::std_specs::hash::group_hash_axioms;

/// One point tracked frame-to-frame by optical flow.
#[derive(Debug, Clone, Copy)]
pub struct Track {
    /// Stable identity across frames.
    pub track_id: u64,
    /// Raw, distorted pixel position in the current frame.
    pub pixel: Vec2F32,
    /// Associated map-point index, if any.
    pub map_point_idx: Option<usize>,
    /// Consecutive frames this track has survived. 1 = just detected.
    pub age: u32,
}

/// Persistent state for points carried between frames.
#[derive(Debug)]
pub struct TrackState {
    next_track_id: u64,
    tracks: Vec<Track>,
}

/// `kornia_imgproc::optical_flow_pyr_lk::PyrLKParams`: flow solver parameters, carried through
/// unread.
#[verifier::external_type_specification]
#[verifier::external_body]
pub struct ExPyrLKParams(kornia_imgproc::optical_flow_pyr_lk::PyrLKParams);

/// `kornia_imgproc::optical_flow_pyr_lk::PyrLKError`: why there is no flow, carried through
/// unread.
#[verifier::external_type_specification]
#[verifier::external_body]
pub struct ExPyrLKError(kornia_imgproc::optical_flow_pyr_lk::PyrLKError);

/// What the flow solver says of one point.
#[derive(Debug, Clone, Copy)]
pub struct FlowPoint {
    /// Zero where the solver lost the point.
    pub status: u8,
    /// Where the point is in the next image.
    pub pixel: Vec2F32,
    /// The residual of the solver, by its bits.
    pub residual: u32,
}

/// The bits of twenty, in single precision.
pub const DEFAULT_MAX_ERROR: u32 = 0x41a0_0000;

/// The bits of sixty, in single precision.
pub const DEFAULT_MAX_MOVEMENT: u32 = 0x4270_0000;

/// Which points that were found are accepted.
#[derive(Debug, Clone, Copy)]
pub struct FlowLimits {
    /// Maximum accepted residual when tracking succeeds, by its bits.
    pub max_error: u32,
    /// Maximum accepted frame-to-frame displacement in pixels, by its bits.
    pub max_movement: u32,
    /// Required distance in pixels from the output image border, in both components.
    pub border_margin: Vec2F32,
}

impl FlowLimits {
    /// The default limits, with a distance from the border.
    pub fn new(border_margin: Vec2F32) -> (limits: FlowLimits)
        ensures
            limits.max_error == DEFAULT_MAX_ERROR,
            limits.max_movement == DEFAULT_MAX_MOVEMENT,
            limits.border_margin == border_margin,
    {
        FlowLimits {
            max_error: DEFAULT_MAX_ERROR,
            max_movement: DEFAULT_MAX_MOVEMENT,
            border_margin,
        }
    }
}

/// A pixel is too close to the border of an image to trust.
pub open spec fn is_near_border(pixel: Vec2F32, margin: Vec2F32, width: usize, height: usize) -> bool {
    let last = difference(image_corner(width, height), margin);
    ||| above(x_of(margin), x_of(pixel))
    ||| above(y_of(margin), y_of(pixel))
    ||| above(x_of(pixel), x_of(last))
    ||| above(y_of(pixel), y_of(last))
}

/// The solver found the point of a track, with a small residual, away from the border of the
/// image, and not too far from where it was.
pub open spec fn is_accepted(
    limits: FlowLimits,
    width: usize,
    height: usize,
    track: Track,
    point: FlowPoint,
) -> bool {
    &&& point.status != 0
    &&& !above(number(point.residual), number(limits.max_error))
    &&& !is_near_border(point.pixel, limits.border_margin, width, height)
    &&& !above(pixel_length(difference(point.pixel, track.pixel)), number(limits.max_movement))
}

/// Where the points are that are accepted.
pub open spec fn flow_of(
    limits: FlowLimits,
    width: usize,
    height: usize,
    tracks: Seq<Track>,
    points: Seq<FlowPoint>,
) -> Seq<Option<Vec2F32>> {
    Seq::new(
        tracks.len(),
        |i: int|
            if is_accepted(limits, width, height, tracks[i], points[i]) {
                Some(points[i].pixel)
            } else {
                None
            },
    )
}

fn accepts(limits: &FlowLimits, width: usize, height: usize, track: &Track, point: &FlowPoint) -> (yes:
    bool)
    ensures
        yes == is_accepted(*limits, width, height, *track, *point),
{
    if point.status == 0 || is_above(point.residual, limits.max_error) {
        return false;
    }
    let margin = &limits.border_margin;
    let last = subtract(&corner_of(width, height), margin);
    let x: u32 = x_bits(&point.pixel);
    let y: u32 = y_bits(&point.pixel);
    if is_above(x_bits(margin), x) || is_above(y_bits(margin), y) || is_above(x, x_bits(&last))
        || is_above(y, y_bits(&last)) {
        return false;
    }
    let moved = subtract(&point.pixel, &track.pixel);
    !is_above(pixel_length_bits(&moved), limits.max_movement)
}

/// On some machine, `calc_optical_flow_pyr_lk` returns `found` for these images and pixels.
pub uninterp spec fn may_follow(
    prev: (usize, usize, Seq<u8>),
    next: (usize, usize, Seq<u8>),
    pixels: Seq<Vec2F32>,
    params: PyrLKParams,
    found: Result<Seq<FlowPoint>, PyrLKError>,
) -> bool;

/// The points as a sequence.
pub open spec fn listed(found: Result<Vec<FlowPoint>, PyrLKError>) -> Result<
    Seq<FlowPoint>,
    PyrLKError,
> {
    match found {
        Ok(points) => Ok(points@),
        Err(error) => Err(error),
    }
}

/// `kornia_imgproc::optical_flow_pyr_lk::calc_optical_flow_pyr_lk` without an initial guess,
/// for the two images in single precision: it needs images of the same size, reflects them at
/// their borders by 32-bit indices, and says something of each point. What it says is stated only as something that it may say: its
/// arithmetic depends on the vector instructions of the machine.
#[verifier::external_body]
fn follow(
    prev: &GrayImage<'_>,
    next: &GrayImage<'_>,
    pixels: &Vec<Vec2F32>,
    params: &PyrLKParams,
) -> (found: Result<Vec<FlowPoint>, PyrLKError>)
    requires
        prev.is_sized(),
        next.is_sized(),
    ensures
        may_follow(prev.content(), next.content(), pixels@, *params, listed(found)),
        found is Ok ==> found->Ok_0@.len() == pixels@.len(),
        found is Ok ==> prev.width == next.width && prev.height == next.height,
{
    let load = |image: &GrayImage<'_>| {
        let size = ImageSize { width: image.width, height: image.height };
        Image::<u8, 1>::from_size_slice(size, image.pixels)?.cast()
    };
    let points: Vec<_> = pixels.iter().map(|pixel| pixel.to_array()).collect();
    let flow = calc_optical_flow_pyr_lk(&load(prev)?, &load(next)?, &points, None, params)?;
    let said = flow.status.into_iter().zip(flow.next_pts).zip(flow.error);
    Ok(said.map(|((status, pixel), error)| FlowPoint {
        status,
        pixel: Vec2F32::from_array(pixel),
        residual: error.to_bits(),
    }).collect())
}

/// A track that was just made.
pub open spec fn fresh_track(id: u64, pixel: Vec2F32, map_point_idx: Option<usize>) -> Track {
    Track { track_id: id, pixel, map_point_idx, age: 1 }
}

/// The track one frame later.
pub open spec fn carried(track: Track, pixel: Vec2F32) -> Track {
    Track { pixel, age: (track.age + 1) as u32, ..track }
}

/// Every track can become one frame older.
pub open spec fn can_age(tracks: Seq<Track>) -> bool {
    forall|i: int| 0 <= i < tracks.len() ==> (#[trigger] tracks[i]).age < u32::MAX
}

/// The identities are distinct, and below `next`.
pub open spec fn ids_issued(tracks: Seq<Track>, next: int) -> bool {
    &&& forall|i: int| 0 <= i < tracks.len() ==> (#[trigger] tracks[i]).track_id < next
    &&& forall|i: int, j: int|
        0 <= i < j < tracks.len() ==> (#[trigger] tracks[i]).track_id != (
        #[trigger] tracks[j]).track_id
}

/// The tracks whose points were found again, one frame later.
pub open spec fn survivors(tracks: Seq<Track>, flow: Seq<Option<Vec2F32>>) -> Seq<Track>
    decreases tracks.len(),
{
    if tracks.len() == 0 {
        Seq::empty()
    } else {
        let n = tracks.len() - 1;
        let head = survivors(tracks.drop_last(), flow);
        match flow[n] {
            None => head,
            Some(pixel) => head.push(carried(tracks[n], pixel)),
        }
    }
}

/// The last track that is associated with a map point.
pub open spec fn last_of(tracks: Seq<Track>, mp_idx: usize) -> Option<Track>
    decreases tracks.len(),
{
    if tracks.len() == 0 {
        None
    } else if tracks.last().map_point_idx == Some(mp_idx) {
        Some(tracks.last())
    } else {
        last_of(tracks.drop_last(), mp_idx)
    }
}

/// One of the first `n` matches is with the map point and with a keypoint that exists.
pub open spec fn matched_before(
    matches: Seq<(usize, usize)>,
    n_keypoints: nat,
    mp_idx: usize,
    n: int,
) -> bool {
    exists|j: int|
        0 <= j < n && (#[trigger] matches[j]).0 == mp_idx && matches[j].1 < n_keypoints
}

/// The tracks that the first `n` matches give, and the next free identity. A match with a
/// keypoint that does not exist gives none. The first other match with a map point carries
/// on the last track of that map point, if there is one; every other match starts a track.
pub open spec fn refreshed(
    tracks: Seq<Track>,
    next: int,
    matches: Seq<(usize, usize)>,
    keypoints: Seq<Vec2F32>,
    n: nat,
) -> (Seq<Track>, int)
    decreases n,
{
    if n == 0 {
        (Seq::empty(), next)
    } else {
        let (head, free) = refreshed(tracks, next, matches, keypoints, (n - 1) as nat);
        let (mp_idx, kp_idx) = matches[n - 1];
        if kp_idx >= keypoints.len() {
            (head, free)
        } else {
            let pixel = keypoints[kp_idx as int];
            let old = last_of(tracks, mp_idx);
            if old is Some && !matched_before(matches, keypoints.len(), mp_idx, n - 1) {
                (head.push(carried(old->0, pixel)), free)
            } else {
                (head.push(fresh_track(free as u64, pixel, Some(mp_idx))), free + 1)
            }
        }
    }
}

proof fn lemma_last_of(tracks: Seq<Track>, mp_idx: usize)
    ensures
        match last_of(tracks, mp_idx) {
            None => forall|i: int|
                0 <= i < tracks.len() ==> (#[trigger] tracks[i]).map_point_idx != Some(mp_idx),
            Some(old) => exists|i: int|
                0 <= i < tracks.len() && #[trigger] tracks[i] == old && old.map_point_idx == Some(
                    mp_idx,
                ),
        },
    decreases tracks.len(),
{
    if tracks.len() > 0 {
        if tracks.last().map_point_idx == Some(mp_idx) {
            assert(tracks[tracks.len() - 1] == tracks.last());
        } else {
            let head = tracks.drop_last();
            lemma_last_of(head, mp_idx);
            if last_of(head, mp_idx) is Some {
                let i = choose|i: int|
                    0 <= i < head.len() && #[trigger] head[i] == last_of(head, mp_idx)->0;
                assert(tracks[i] == head[i]);
            } else {
                assert forall|i: int| 0 <= i < tracks.len() implies (
                #[trigger] tracks[i]).map_point_idx != Some(mp_idx) by {
                    if i < head.len() {
                        assert(tracks[i] == head[i]);
                    }
                }
            }
        }
    }
}

/// Where identities were issued, refreshing keeps them distinct: a map point that is
/// matched again keeps its identity, and every other track gets a new one.
pub proof fn lemma_refresh_keeps_identities(
    tracks: Seq<Track>,
    next: int,
    matches: Seq<(usize, usize)>,
    keypoints: Seq<Vec2F32>,
    n: nat,
)
    requires
        ids_issued(tracks, next),
        n <= matches.len(),
        0 <= next,
        next + n <= u64::MAX,
    ensures
        ({
            let (out, free) = refreshed(tracks, next, matches, keypoints, n);
            &&& next <= free <= next + n
            &&& ids_issued(out, free)
            &&& out.len() <= n
            &&& forall|i: int|
                0 <= i < out.len() ==> (#[trigger] out[i]).map_point_idx is Some
                    && matched_before(matches, keypoints.len(), out[i].map_point_idx->0, n as int)
            &&& forall|i: int|
                0 <= i < out.len() && (#[trigger] out[i]).track_id < next ==> {
                    let old = last_of(tracks, out[i].map_point_idx->0);
                    old is Some && old->0.track_id == out[i].track_id
                }
        }),
    decreases n,
{
    if n > 0 {
        let m = (n - 1) as nat;
        lemma_refresh_keeps_identities(tracks, next, matches, keypoints, m);
        let (head, free0) = refreshed(tracks, next, matches, keypoints, m);
        let (out, free) = refreshed(tracks, next, matches, keypoints, n);
        let (mp_idx, kp_idx) = matches[n - 1];
        let k = keypoints.len();
        assert forall|x: usize| matched_before(matches, k, x, m as int) implies matched_before(
            matches,
            k,
            x,
            n as int,
        ) by {
            let j = choose|j: int| 0 <= j < m && (#[trigger] matches[j]).0 == x && matches[j].1 < k;
            assert(matches[j].0 == x);
        }
        if kp_idx < k {
            assert(matches[n - 1].0 == mp_idx && matches[n - 1].1 < k);
            assert(matched_before(matches, k, mp_idx, n as int));
            lemma_last_of(tracks, mp_idx);
            let new = out[head.len() as int];
            assert forall|i: int| 0 <= i < head.len() implies (#[trigger] head[i]).track_id
                != new.track_id by {
                if free == free0 {
                    let old = last_of(tracks, mp_idx)->0;
                    if head[i].track_id == old.track_id {
                        let a = choose|a: int|
                            0 <= a < tracks.len() && #[trigger] tracks[a] == old;
                        let other = last_of(tracks, head[i].map_point_idx->0)->0;
                        lemma_last_of(tracks, head[i].map_point_idx->0);
                        let b = choose|b: int|
                            0 <= b < tracks.len() && #[trigger] tracks[b] == other;
                        if a < b {
                            assert(tracks[a].track_id != tracks[b].track_id);
                        }
                        if b < a {
                            assert(tracks[b].track_id != tracks[a].track_id);
                        }
                    }
                }
            }
            assert forall|i: int| 0 <= i < out.len() implies (#[trigger] out[i]).track_id < free by {
                if i < head.len() {
                    assert(head[i].track_id < free0);
                }
            }
            assert forall|i: int, j: int| 0 <= i < j < out.len() implies (
            #[trigger] out[i]).track_id != (#[trigger] out[j]).track_id by {
                assert(out[i] == head[i]);
                if j < head.len() {
                    assert(out[j] == head[j]);
                }
            }
            assert forall|i: int| 0 <= i < out.len() implies (#[trigger] out[i]).map_point_idx is Some
                && matched_before(matches, k, out[i].map_point_idx->0, n as int) by {
                if i < head.len() {
                    assert(out[i] == head[i]);
                }
            }
            assert forall|i: int| 0 <= i < out.len() && (#[trigger] out[i]).track_id < next implies {
                let old = last_of(tracks, out[i].map_point_idx->0);
                old is Some && old->0.track_id == out[i].track_id
            } by {
                if i < head.len() {
                    assert(out[i] == head[i]);
                }
            }
        }
    }
}

impl TrackState {
    /// The identity that the next new track gets.
    pub closed spec fn spec_next_id(&self) -> u64 {
        self.next_track_id
    }

    /// Current tracks, in order.
    pub closed spec fn spec_tracks(&self) -> Seq<Track> {
        self.tracks@
    }

    /// Creates an empty track state.
    pub fn new() -> (state: TrackState)
        ensures
            state.spec_next_id() == 0,
            state.spec_tracks() == Seq::<Track>::empty(),
    {
        TrackState { next_track_id: 0, tracks: Vec::new() }
    }

    /// Returns current tracks in optical-flow input order.
    pub fn tracks(&self) -> (tracks: &[Track])
        ensures
            tracks@ == self.spec_tracks(),
    {
        self.tracks.as_slice()
    }

    /// Number of points currently tracked.
    pub fn len(&self) -> (n: usize)
        ensures
            n == self.spec_tracks().len(),
    {
        self.tracks.len()
    }

    pub fn is_empty(&self) -> (empty: bool)
        ensures
            empty == (self.spec_tracks().len() == 0),
    {
        self.tracks.is_empty()
    }

    /// Returns pixel positions in the same order as [`Self::tracks`].
    pub fn pixels(&self) -> (pixels: Vec<Vec2F32>)
        ensures
            pixels@ == pixels_of(self.spec_tracks()),
    {
        let mut pixels: Vec<Vec2F32> = Vec::new();
        let mut i: usize = 0;
        while i < self.tracks.len()
            invariant
                i <= self.tracks@.len(),
                pixels@ == pixels_of(self.tracks@.take(i as int)),
            decreases self.tracks@.len() - i,
        {
            pixels.push(self.tracks[i].pixel);
            i += 1;
            assert(pixels@ =~= pixels_of(self.tracks@.take(i as int)));
        }
        assert(self.tracks@.take(i as int) =~= self.tracks@);
        pixels
    }

    /// Creates a uniquely identified, unassociated track.
    pub fn new_track(&mut self, pixel: Vec2F32) -> (track: Track)
        requires
            old(self).spec_next_id() < u64::MAX,
        ensures
            track == fresh_track(old(self).spec_next_id(), pixel, None),
            final(self).spec_next_id() == old(self).spec_next_id() + 1,
            final(self).spec_tracks() == old(self).spec_tracks(),
    {
        let track_id: u64 = self.next_track_id;
        self.next_track_id = track_id + 1;
        Track { track_id, pixel, map_point_idx: None, age: 1 }
    }

    /// Whether so many new tracks can be given an identity.
    pub fn can_issue(&self, n: usize) -> (can: bool)
        ensures
            can == (self.spec_next_id() + n <= u64::MAX),
    {
        n as u64 <= u64::MAX - self.next_track_id
    }

    /// Replaces the current track set.
    pub fn set_tracks(&mut self, tracks: Vec<Track>)
        ensures
            final(self).spec_tracks() == tracks@,
            final(self).spec_next_id() == old(self).spec_next_id(),
    {
        self.tracks = tracks;
    }

    /// The tracks that survive what the flow solver says of their points in an image of a size.
    pub fn keep_survivors(
        &self,
        points: &Vec<FlowPoint>,
        width: usize,
        height: usize,
        limits: &FlowLimits,
    ) -> (kept: Vec<Track>)
        requires
            can_age(self.spec_tracks()),
            points@.len() >= self.spec_tracks().len(),
        ensures
            kept@ == survivors(
                self.spec_tracks(),
                flow_of(*limits, width, height, self.spec_tracks(), points@),
            ),
    {
        let mut kept: Vec<Track> = Vec::new();
        let ghost flow = flow_of(*limits, width, height, self.tracks@, points@);
        let mut i: usize = 0;
        assert(self.tracks@.take(0) =~= Seq::empty());
        while i < self.tracks.len()
            invariant
                i <= self.tracks@.len() <= points@.len(),
                can_age(self.tracks@),
                flow == flow_of(*limits, width, height, self.tracks@, points@),
                kept@ == survivors(self.tracks@.take(i as int), flow),
            decreases self.tracks@.len() - i,
        {
            assert(self.tracks@.take(i + 1).drop_last() =~= self.tracks@.take(i as int));
            let mut track = self.tracks[i];
            let point = points[i];
            if accepts(limits, width, height, &track, &point) {
                track.pixel = point.pixel;
                track.age = track.age + 1;
                kept.push(track);
            }
            i += 1;
        }
        assert(self.tracks@.take(i as int) =~= self.tracks@);
        kept
    }

    /// Follows the current points from one image to the next and returns the accepted
    /// survivors, without changing this state.
    pub fn track(
        &self,
        prev: &GrayImage<'_>,
        next: &GrayImage<'_>,
        params: &PyrLKParams,
        limits: &FlowLimits,
    ) -> (result: Result<Vec<Track>, PyrLKError>)
        requires
            can_age(self.spec_tracks()),
            self.spec_tracks().len() > 0 ==> prev.is_sized() && next.is_sized(),
        ensures
            is_tracking(
                self.spec_tracks(),
                prev.content(),
                next.content(),
                *params,
                *limits,
                result,
            ),
    {
        if self.is_empty() {
            return Ok(Vec::new());
        }
        let pixels = self.pixels();
        let found = follow(prev, next, &pixels, params);
        assert(pixels@ =~= pixels_of(self.spec_tracks()));
        assert(may_follow(
            prev.content(),
            next.content(),
            pixels_of(self.spec_tracks()),
            *params,
            listed(found),
        ));
        match found {
            Err(error) => Err(error),
            Ok(points) => Ok(self.keep_survivors(&points, next.width, next.height, limits)),
        }
    }

    /// Rebuilds tracks from `(map_point_idx, keypoint_idx)` matches, preserving
    /// identity and age for map points already present in the state.
    pub fn refresh_from_matches(&mut self, matches: &[(usize, usize)], keypoints: &[Vec2F32])
        requires
            can_age(old(self).spec_tracks()),
            old(self).spec_next_id() + matches@.len() <= u64::MAX,
        ensures
            (final(self).spec_tracks(), final(self).spec_next_id() as int) == refreshed(
                old(self).spec_tracks(),
                old(self).spec_next_id() as int,
                matches@,
                keypoints@,
                matches@.len(),
            ),
    {
        let ghost old_tracks = self.tracks@;
        let ghost next = self.next_track_id as int;
        let ghost n_kp = keypoints@.len();
        let mut by_point = index_by_point(&self.tracks);
        let mut new_tracks: Vec<Track> = Vec::new();
        let mut m: usize = 0;
        while m < matches.len()
            invariant
                m <= matches@.len(),
                n_kp == keypoints@.len(),
                can_age(old_tracks),
                next + matches@.len() <= u64::MAX,
                next <= self.next_track_id <= next + m,
                self.tracks@ == old_tracks,
                (new_tracks@, self.next_track_id as int) == refreshed(
                    old_tracks,
                    next,
                    matches@,
                    keypoints@,
                    m as nat,
                ),
                forall|mp: usize| #[trigger]
                    by_point@.contains_key(mp) <==> last_of(old_tracks, mp) is Some
                        && !matched_before(matches@, n_kp, mp, m as int),
                forall|mp: usize| #[trigger]
                    by_point@.contains_key(mp) ==> by_point@[mp] == last_of(old_tracks, mp)->0,
            decreases matches@.len() - m,
        {
            let ghost by_point0 = by_point@;
            let (mp_idx, kp_idx) = matches[m];
            if kp_idx < keypoints.len() {
                let pixel = keypoints[kp_idx];
                match by_point.remove(&mp_idx) {
                    Some(old) => {
                        proof {
                            lemma_last_of(old_tracks, mp_idx);
                        }
                        new_tracks.push(
                            Track {
                                track_id: old.track_id,
                                pixel,
                                map_point_idx: Some(mp_idx),
                                age: old.age + 1,
                            },
                        );
                    },
                    None => {
                        let mut track = self.new_track(pixel);
                        track.map_point_idx = Some(mp_idx);
                        new_tracks.push(track);
                    },
                }
            }
            proof {
                assert forall|mp: usize| #[trigger] by_point@.contains_key(mp) <==> last_of(
                    old_tracks,
                    mp,
                ) is Some && !matched_before(matches@, n_kp, mp, m + 1) by {
                    assert(by_point0.contains_key(mp) <==> last_of(old_tracks, mp) is Some
                        && !matched_before(matches@, n_kp, mp, m as int));
                    if matched_before(matches@, n_kp, mp, m as int) {
                        let j = choose|j: int|
                            0 <= j < m && (#[trigger] matches@[j]).0 == mp && matches@[j].1 < n_kp;
                        assert(matches@[j].0 == mp);
                    }
                    if matched_before(matches@, n_kp, mp, m + 1) {
                        let j = choose|j: int|
                            0 <= j < m + 1 && (#[trigger] matches@[j]).0 == mp && matches@[j].1
                                < n_kp;
                        assert(j < m || j == m);
                    }
                    assert(matches@[m as int].0 == mp_idx);
                }
            }
            m += 1;
        }
        self.tracks = new_tracks;
    }
}

/// `result` is what following the tracks from one image to the next comes to. The solver is
/// not asked where there are no tracks.
pub open spec fn is_tracking(
    tracks: Seq<Track>,
    prev: (usize, usize, Seq<u8>),
    next: (usize, usize, Seq<u8>),
    params: PyrLKParams,
    limits: FlowLimits,
    result: Result<Vec<Track>, PyrLKError>,
) -> bool {
    if tracks.len() == 0 {
        result is Ok && result->Ok_0@.len() == 0
    } else {
        exists|found: Result<Seq<FlowPoint>, PyrLKError>|
            {
                &&& #[trigger] may_follow(prev, next, pixels_of(tracks), params, found)
                &&& match found {
                    Err(error) => result == Result::<Vec<Track>, _>::Err(error),
                    Ok(points) => {
                        &&& result is Ok
                        &&& points.len() == tracks.len()
                        &&& result->Ok_0@ == survivors(
                            tracks,
                            flow_of(limits, next.0, next.1, tracks, points),
                        )
                    },
                }
            }
    }
}

/// The pixels of the tracks.
pub open spec fn pixels_of(tracks: Seq<Track>) -> Seq<Vec2F32> {
    tracks.map_values(|t: Track| t.pixel)
}

/// The last track of each map point that has one.
fn index_by_point(tracks: &Vec<Track>) -> (by_point: HashMap<usize, Track>)
    ensures
        forall|mp: usize| #[trigger]
            by_point@.contains_key(mp) <==> last_of(tracks@, mp) is Some,
        forall|mp: usize| #[trigger]
            by_point@.contains_key(mp) ==> by_point@[mp] == last_of(tracks@, mp)->0,
{
    let mut by_point: HashMap<usize, Track> = HashMap::new();
    let mut i: usize = 0;
    assert(tracks@.take(0) =~= Seq::empty());
    while i < tracks.len()
        invariant
            i <= tracks@.len(),
            forall|mp: usize| #[trigger]
                by_point@.contains_key(mp) <==> last_of(tracks@.take(i as int), mp) is Some,
            forall|mp: usize| #[trigger]
                by_point@.contains_key(mp) ==> by_point@[mp] == last_of(
                    tracks@.take(i as int),
                    mp,
                )->0,
        decreases tracks@.len() - i,
    {
        assert(tracks@.take(i + 1).drop_last() =~= tracks@.take(i as int));
        assert(tracks@.take(i + 1).last() == tracks@[i as int]);
        if let Some(mp) = tracks[i].map_point_idx {
            by_point.insert(mp, tracks[i]);
        }
        i += 1;
    }
    assert(tracks@.take(i as int) =~= tracks@);
    by_point
}

/// The squared distance of a keypoint from a pixel.
pub open spec fn gap(keypoint: Vec2F32, pixel: Vec2F32) -> Option<int> {
    squared_length(difference(keypoint, pixel))
}

/// The nearest of those of the first `n` keypoints that are within the radius of a pixel, the
/// first of them where several are as near.
pub open spec fn nearest(
    pixel: Vec2F32,
    keypoints: Seq<Vec2F32>,
    radius: Vec2F32,
    n: nat,
) -> Option<usize>
    decreases n,
{
    if n == 0 {
        None
    } else {
        let best = nearest(pixel, keypoints, radius, (n - 1) as nat);
        let kp = keypoints[n - 1];
        if !is_within(kp, pixel, radius) || (best is Some && at_least(
            gap(kp, pixel),
            gap(keypoints[best->0 as int], pixel),
        )) {
            best
        } else {
            Some((n - 1) as usize)
        }
    }
}

/// The nearest keypoint is within the radius, and none within the radius is nearer; there is
/// none only where none is within the radius.
pub proof fn lemma_nearest(pixel: Vec2F32, keypoints: Seq<Vec2F32>, radius: Vec2F32, n: nat)
    requires
        n <= keypoints.len(),
        n <= usize::MAX,
    ensures
        match nearest(pixel, keypoints, radius, n) {
            None => forall|i: int|
                0 <= i < n ==> !is_within(#[trigger] keypoints[i], pixel, radius),
            Some(best) => {
                &&& best < n
                &&& is_within(keypoints[best as int], pixel, radius)
                &&& forall|i: int|
                    0 <= i < n && is_within(#[trigger] keypoints[i], pixel, radius) ==> at_least(
                        gap(keypoints[i], pixel),
                        gap(keypoints[best as int], pixel),
                    )
            },
        },
    decreases n,
{
    if n > 0 {
        lemma_nearest(pixel, keypoints, radius, (n - 1) as nat);
    }
}

/// Finds the nearest keypoint within the radius.
fn nearest_keypoint(pixel: &Vec2F32, keypoints: &[Vec2F32], radius: &Vec2F32) -> (found: Option<
    usize,
>)
    ensures
        found == nearest(*pixel, keypoints@, *radius, keypoints@.len()),
{
    let mut best: Option<usize> = None;
    let mut best_gap: u32 = 0;
    let mut i: usize = 0;
    while i < keypoints.len()
        invariant
            i <= keypoints@.len(),
            best == nearest(*pixel, keypoints@, *radius, i as nat),
            best is Some ==> best->0 < i && number(best_gap) == gap(
                keypoints@[best->0 as int],
                *pixel,
            ),
        decreases keypoints@.len() - i,
    {
        if lies_within(&keypoints[i], pixel, radius) {
            let here: u32 = squared_bits(&subtract(&keypoints[i], pixel));
            let farther = match best {
                None => false,
                Some(_) => is_at_least(here, best_gap),
            };
            if !farther {
                best = Some(i);
                best_gap = here;
            }
        }
        i += 1;
    }
    best
}

/// The correspondences of the tracks with a map point and a keypoint within the radius.
pub open spec fn snapped(
    tracks: Seq<Track>,
    keypoints: Seq<Vec2F32>,
    radius: Vec2F32,
) -> Seq<(usize, usize)>
    decreases tracks.len(),
{
    if tracks.len() == 0 {
        Seq::empty()
    } else {
        let head = snapped(tracks.drop_last(), keypoints, radius);
        let track = tracks.last();
        let found = nearest(track.pixel, keypoints, radius, keypoints.len());
        if track.map_point_idx is Some && found is Some {
            head.push((track.map_point_idx->0, found->0))
        } else {
            head
        }
    }
}

/// Snaps associated survivors to detected keypoints, producing
/// `(map_point_idx, keypoint_idx)` correspondences. The radius is a vector as long as it.
pub fn snap_survivors(survivors: &[Track], curr_keypoints: &[Vec2F32], snap_radius: &Vec2F32) -> (correspondences:
    Vec<(usize, usize)>)
    ensures
        correspondences@ == snapped(survivors@, curr_keypoints@, *snap_radius),
{
    let mut correspondences: Vec<(usize, usize)> = Vec::new();
    let mut i: usize = 0;
    assert(survivors@.take(0) =~= Seq::empty());
    while i < survivors.len()
        invariant
            i <= survivors@.len(),
            correspondences@ == snapped(survivors@.take(i as int), curr_keypoints@, *snap_radius),
        decreases survivors@.len() - i,
    {
        assert(survivors@.take(i + 1).drop_last() =~= survivors@.take(i as int));
        let track = &survivors[i];
        if let Some(mp_idx) = track.map_point_idx {
            if let Some(kp_idx) = nearest_keypoint(&track.pixel, curr_keypoints, snap_radius) {
                correspondences.push((mp_idx, kp_idx));
            }
        }
        i += 1;
    }
    assert(survivors@.take(i as int) =~= survivors@);
    correspondences
}

/// Tracks existing points and snaps survivors to current-frame keypoints.
pub fn klt_correspondences(
    track_state: &TrackState,
    prev: &GrayImage<'_>,
    next: &GrayImage<'_>,
    curr_keypoints: &[Vec2F32],
    params: &PyrLKParams,
    limits: &FlowLimits,
    snap_radius: &Vec2F32,
) -> (result: Result<Vec<(usize, usize)>, PyrLKError>)
    requires
        can_age(track_state.spec_tracks()),
        track_state.spec_tracks().len() > 0 ==> prev.is_sized() && next.is_sized(),
    ensures
        exists|followed: Result<Vec<Track>, PyrLKError>|
            {
                &&& #[trigger] is_tracking(
                    track_state.spec_tracks(),
                    prev.content(),
                    next.content(),
                    *params,
                    *limits,
                    followed,
                )
                &&& match followed {
                    Err(error) => result == Result::<Vec<(usize, usize)>, _>::Err(error),
                    Ok(tracks) => result is Ok && result->Ok_0@ == snapped(
                        tracks@,
                        curr_keypoints@,
                        *snap_radius,
                    ),
                }
            },
{
    let followed = track_state.track(prev, next, params, limits);
    let ghost said = followed;
    let result = match followed {
        Err(error) => Err(error),
        Ok(survivors) => Ok(snap_survivors(survivors.as_slice(), curr_keypoints, snap_radius)),
    };
    assert(is_tracking(
        track_state.spec_tracks(),
        prev.content(),
        next.content(),
        *params,
        *limits,
        said,
    ));
    result
}

/// Where identities were issued, the survivors have them too.
pub proof fn lemma_survivors_keep_identities(
    tracks: Seq<Track>,
    flow: Seq<Option<Vec2F32>>,
    next: int,
)
    requires
        ids_issued(tracks, next),
        flow.len() >= tracks.len(),
    ensures
        ids_issued(survivors(tracks, flow), next),
        forall|i: int|
            0 <= i < survivors(tracks, flow).len() ==> exists|j: int|
                0 <= j < tracks.len() && (#[trigger] survivors(tracks, flow)[i]).track_id == (
                #[trigger] tracks[j]).track_id,
    decreases tracks.len(),
{
    if tracks.len() > 0 {
        let t = tracks.drop_last();
        assert(ids_issued(t, next)) by {
            assert forall|i: int| 0 <= i < t.len() implies (#[trigger] t[i]).track_id < next by {
                assert(t[i] == tracks[i]);
            }
            assert forall|i: int, j: int| 0 <= i < j < t.len() implies (#[trigger] t[i]).track_id
                != (#[trigger] t[j]).track_id by {
                assert(tracks[i].track_id != tracks[j].track_id);
            }
        }
        lemma_survivors_keep_identities(t, flow, next);
        let head = survivors(t, flow);
        let out = survivors(tracks, flow);
        let n = tracks.len() - 1;
        assert forall|i: int| 0 <= i < out.len() implies exists|j: int|
            0 <= j < tracks.len() && (#[trigger] out[i]).track_id == (
            #[trigger] tracks[j]).track_id by {
            if i < head.len() {
                assert(out[i] == head[i]);
                let j = choose|j: int| 0 <= j < t.len() && head[i].track_id == (#[trigger] t[j]).track_id;
                assert(tracks[j] == t[j]);
            } else {
                assert(out[i].track_id == tracks[n].track_id);
            }
        }
        assert forall|i: int| 0 <= i < out.len() implies (#[trigger] out[i]).track_id < next by {
            let j = choose|j: int|
                0 <= j < tracks.len() && out[i].track_id == (#[trigger] tracks[j]).track_id;
            assert(tracks[j].track_id < next);
        }
        assert forall|i: int, j: int| 0 <= i < j < out.len() implies (#[trigger] out[i]).track_id
            != (#[trigger] out[j]).track_id by {
            assert(out[i] == head[i]);
            if j < head.len() {
                assert(out[j] == head[j]);
            } else {
                let a = choose|a: int|
                    0 <= a < t.len() && head[i].track_id == (#[trigger] t[a]).track_id;
                assert(tracks[a].track_id != tracks[n].track_id);
            }
        }
    }
}

/// Where identities were issued, a new track has one that no other has.
pub proof fn lemma_new_track_is_unique(tracks: Seq<Track>, next: u64, pixel: Vec2F32)
    requires
        ids_issued(tracks, next as int),
    ensures
        ids_issued(tracks.push(fresh_track(next, pixel, None)), next + 1),
{
    let new = fresh_track(next, pixel, None);
    let all = tracks.push(new);
    assert forall|i: int| 0 <= i < all.len() implies (#[trigger] all[i]).track_id < next + 1 by {
        if i < tracks.len() {
            assert(tracks[i].track_id < next);
        }
    }
    assert forall|i: int, j: int| 0 <= i < j < all.len() implies (#[trigger] all[i]).track_id != (
    #[trigger] all[j]).track_id by {
        assert(all[i] == tracks[i]);
        if j < tracks.len() {
            assert(all[j] == tracks[j]);
        }
    }
}

/// Where all that is compared is a number, a point is accepted exactly where the solver did not
/// lose it, its residual is at most the largest, it is at least the margin from each of the four
/// sides of the image, and it is at most the largest movement from where it was.
pub proof fn lemma_flow_acceptance(
    limits: FlowLimits,
    width: usize,
    height: usize,
    track: Track,
    point: FlowPoint,
)
    requires
        number(point.residual) is Some,
        number(limits.max_error) is Some,
        number(limits.max_movement) is Some,
        pixel_length(difference(point.pixel, track.pixel)) is Some,
        x_of(point.pixel) is Some,
        y_of(point.pixel) is Some,
        x_of(limits.border_margin) is Some,
        y_of(limits.border_margin) is Some,
        x_of(difference(image_corner(width, height), limits.border_margin)) is Some,
        y_of(difference(image_corner(width, height), limits.border_margin)) is Some,
    ensures
        ({
            let margin = limits.border_margin;
            let far = difference(image_corner(width, height), margin);
            is_accepted(limits, width, height, track, point) <==> {
                &&& point.status != 0
                &&& number(point.residual)->0 <= number(limits.max_error)->0
                &&& x_of(margin)->0 <= x_of(point.pixel)->0 <= x_of(far)->0
                &&& y_of(margin)->0 <= y_of(point.pixel)->0 <= y_of(far)->0
                &&& pixel_length(difference(point.pixel, track.pixel))->0 <= number(
                    limits.max_movement,
                )->0
            }
        }),
{
}

/// The survivors are the tracks whose points were found, in order, each with its identity and
/// its map point, one frame older, and where its point was found.
pub proof fn lemma_survivors(tracks: Seq<Track>, flow: Seq<Option<Vec2F32>>)
    requires
        tracks.len() <= flow.len(),
        tracks.len() <= usize::MAX,
        can_age(tracks),
    ensures
        ({
            let found = crate::selection::indices_where(
                tracks.len(),
                |i: int| flow[i] is Some,
            );
            let out = survivors(tracks, flow);
            &&& out.len() == found.len()
            &&& forall|j: int|
                0 <= j < out.len() ==> {
                    let track = tracks[found[j] as int];
                    &&& (#[trigger] out[j]).track_id == track.track_id
                    &&& out[j].map_point_idx == track.map_point_idx
                    &&& out[j].age == track.age + 1
                    &&& Some(out[j].pixel) == flow[found[j] as int]
                }
        }),
    decreases tracks.len(),
{
    let is_found = |i: int| flow[i] is Some;
    if tracks.len() > 0 {
        let head = tracks.drop_last();
        let n = (tracks.len() - 1) as nat;
        assert forall|i: int| 0 <= i < head.len() implies (#[trigger] head[i]).age < u32::MAX by {
            assert(tracks[i].age < u32::MAX);
        }
        lemma_survivors(head, flow);
        crate::selection::lemma_indices_where(n, is_found);
        assert(tracks[n as int].age < u32::MAX);
        let before = survivors(head, flow);
        let out = survivors(tracks, flow);
        let found = crate::selection::indices_where(tracks.len(), is_found);
        let earlier = crate::selection::indices_where(n, is_found);
        assert forall|j: int| 0 <= j < out.len() implies {
            let track = tracks[found[j] as int];
            &&& (#[trigger] out[j]).track_id == track.track_id
            &&& out[j].map_point_idx == track.map_point_idx
            &&& out[j].age == track.age + 1
            &&& Some(out[j].pixel) == flow[found[j] as int]
        } by {
            if j < before.len() {
                assert(out[j] == before[j]);
                assert(found[j] == earlier[j]);
                assert(head[earlier[j] as int] == tracks[earlier[j] as int]);
            }
        }
    }
}

/// Following the tracks asks the solver about their pixels, from the first image to the second,
/// and a track survives exactly where what the solver said of its own point is accepted, within
/// the second image.
pub proof fn lemma_tracking(
    tracks: Seq<Track>,
    prev: (usize, usize, Seq<u8>),
    next: (usize, usize, Seq<u8>),
    params: PyrLKParams,
    limits: FlowLimits,
    out: Vec<Track>,
)
    requires
        is_tracking(tracks, prev, next, params, limits, Ok(out)),
        tracks.len() <= usize::MAX,
        can_age(tracks),
    ensures
        tracks.len() == 0 ==> out@.len() == 0,
        tracks.len() > 0 ==> exists|pixels: Seq<Vec2F32>, points: Seq<FlowPoint>|
            {
                &&& #[trigger] may_follow(prev, next, pixels, params, Ok(points))
                &&& pixels.len() == tracks.len()
                &&& forall|i: int|
                    0 <= i < tracks.len() ==> #[trigger] pixels[i] == tracks[i].pixel
                &&& points.len() == tracks.len()
                &&& ({
                    let kept = crate::selection::indices_where(
                        tracks.len(),
                        |i: int| is_accepted(limits, next.0, next.1, tracks[i], points[i]),
                    );
                    &&& out@.len() == kept.len()
                    &&& forall|j: int|
                        0 <= j < out@.len() ==> {
                            let i = kept[j] as int;
                            &&& (#[trigger] out@[j]).track_id == tracks[i].track_id
                            &&& out@[j].map_point_idx == tracks[i].map_point_idx
                            &&& out@[j].age == tracks[i].age + 1
                            &&& out@[j].pixel == points[i].pixel
                        }
                })
            },
{
    if tracks.len() > 0 {
        let found = choose|found: Result<Seq<FlowPoint>, PyrLKError>|
            {
                &&& #[trigger] may_follow(prev, next, pixels_of(tracks), params, found)
                &&& found is Ok
                &&& found->Ok_0.len() == tracks.len()
                &&& out@ == survivors(
                    tracks,
                    flow_of(limits, next.0, next.1, tracks, found->Ok_0),
                )
            };
        let points = found->Ok_0;
        assert(found == Result::<Seq<FlowPoint>, PyrLKError>::Ok(points));
        let flow = flow_of(limits, next.0, next.1, tracks, points);
        lemma_survivors(tracks, flow);
        let is_found = |i: int| flow[i] is Some;
        let accepted = |i: int| is_accepted(limits, next.0, next.1, tracks[i], points[i]);
        crate::selection::lemma_indices_where_agree(tracks.len(), is_found, accepted);
        crate::selection::lemma_indices_where(tracks.len(), accepted);
        assert(may_follow(prev, next, pixels_of(tracks), params, Ok(points)));
    }
}

/// `track` carries on the last of the tracks of a map point: it has its identity, and is one
/// frame older.
pub open spec fn carries_on(tracks: Seq<Track>, mp_idx: usize, track: Track) -> bool {
    exists|t: int|
        {
            &&& 0 <= t < tracks.len()
            &&& (#[trigger] tracks[t]).map_point_idx == Some(mp_idx)
            &&& forall|u: int|
                t < u < tracks.len() ==> (#[trigger] tracks[u]).map_point_idx != Some(mp_idx)
            &&& track.track_id == tracks[t].track_id
            &&& track.age == tracks[t].age + 1
        }
}

proof fn lemma_last_is_last(tracks: Seq<Track>, mp_idx: usize)
    requires
        last_of(tracks, mp_idx) is Some,
    ensures
        exists|t: int|
            {
                &&& 0 <= t < tracks.len()
                &&& #[trigger] tracks[t] == last_of(tracks, mp_idx)->0
                &&& tracks[t].map_point_idx == Some(mp_idx)
                &&& forall|u: int|
                    t < u < tracks.len() ==> (#[trigger] tracks[u]).map_point_idx != Some(mp_idx)
            },
    decreases tracks.len(),
{
    let head = tracks.drop_last();
    if tracks.last().map_point_idx == Some(mp_idx) {
        assert(tracks[tracks.len() - 1] == last_of(tracks, mp_idx)->0);
    } else {
        lemma_last_is_last(head, mp_idx);
        let t = choose|t: int|
            {
                &&& 0 <= t < head.len()
                &&& #[trigger] head[t] == last_of(head, mp_idx)->0
                &&& head[t].map_point_idx == Some(mp_idx)
                &&& forall|u: int|
                    t < u < head.len() ==> (#[trigger] head[u]).map_point_idx != Some(mp_idx)
            };
        assert(tracks[t] == head[t]);
        assert forall|u: int| t < u < tracks.len() implies (#[trigger] tracks[u]).map_point_idx
            != Some(mp_idx) by {
            if u < head.len() {
                assert(head[u] == tracks[u]);
            }
        }
    }
}

/// Refreshing gives a track for each match with a keypoint that exists, in order: at that
/// keypoint, and of its map point. The first such match of a map point that has a track carries
/// on the last one of it; every other starts a track, with an identity that was not issued.
pub proof fn lemma_refreshed(
    tracks: Seq<Track>,
    next: int,
    matches: Seq<(usize, usize)>,
    keypoints: Seq<Vec2F32>,
    n: nat,
)
    requires
        n <= matches.len() <= usize::MAX,
        can_age(tracks),
        0 <= next,
        next + n <= u64::MAX,
    ensures
        ({
            let valid = crate::selection::indices_where(
                n,
                |i: int| matches[i].1 < keypoints.len(),
            );
            let (out, free) = refreshed(tracks, next, matches, keypoints, n);
            &&& next <= free <= next + n
            &&& out.len() == valid.len()
            &&& forall|j: int|
                0 <= j < out.len() ==> {
                    let (mp_idx, kp_idx) = matches[valid[j] as int];
                    let is_known = exists|t: int|
                        0 <= t < tracks.len() && (#[trigger] tracks[t]).map_point_idx == Some(
                            mp_idx,
                        );
                    let is_first = forall|i: int|
                        0 <= i < valid[j] && (#[trigger] matches[i]).1 < keypoints.len()
                            ==> matches[i].0 != mp_idx;
                    &&& (#[trigger] out[j]).pixel == keypoints[kp_idx as int]
                    &&& out[j].map_point_idx == Some(mp_idx)
                    &&& is_known && is_first ==> carries_on(tracks, mp_idx, out[j])
                    &&& !(is_known && is_first) ==> out[j].age == 1 && next <= out[j].track_id
                        < free
                }
        }),
    decreases n,
{
    if n > 0 {
        let m = (n - 1) as nat;
        lemma_refreshed(tracks, next, matches, keypoints, m);
        let exists_there = |i: int| matches[i].1 < keypoints.len();
        let earlier = crate::selection::indices_where(m, exists_there);
        let valid = crate::selection::indices_where(n, exists_there);
        crate::selection::lemma_indices_where(m, exists_there);
        let (head, before) = refreshed(tracks, next, matches, keypoints, m);
        let (out, free) = refreshed(tracks, next, matches, keypoints, n);
        assert forall|j: int| 0 <= j < out.len() implies {
            let (mp_idx, kp_idx) = matches[valid[j] as int];
            let is_known = exists|t: int|
                0 <= t < tracks.len() && (#[trigger] tracks[t]).map_point_idx == Some(mp_idx);
            let is_first = forall|i: int|
                0 <= i < valid[j] && (#[trigger] matches[i]).1 < keypoints.len() ==> matches[i].0
                    != mp_idx;
            &&& (#[trigger] out[j]).pixel == keypoints[kp_idx as int]
            &&& out[j].map_point_idx == Some(mp_idx)
            &&& is_known && is_first ==> carries_on(tracks, mp_idx, out[j])
            &&& !(is_known && is_first) ==> out[j].age == 1 && next <= out[j].track_id < free
        } by {
            if j < head.len() {
                assert(out[j] == head[j]);
                assert(valid[j] == earlier[j]);
            } else {
                assert(valid[j] == m);
                let (mp_idx, kp_idx) = matches[m as int];
                lemma_last_of(tracks, mp_idx);
                if last_of(tracks, mp_idx) is Some {
                    lemma_last_is_last(tracks, mp_idx);
                    let old = last_of(tracks, mp_idx)->0;
                    let t = choose|t: int|
                        {
                            &&& 0 <= t < tracks.len()
                            &&& #[trigger] tracks[t] == old
                            &&& tracks[t].map_point_idx == Some(mp_idx)
                            &&& forall|u: int|
                                t < u < tracks.len() ==> (#[trigger] tracks[u]).map_point_idx
                                    != Some(mp_idx)
                        };
                    assert(tracks[t].age < u32::MAX);
                    if !matched_before(matches, keypoints.len(), mp_idx, m as int) {
                        assert(out[j] == carried(old, keypoints[kp_idx as int]));
                        assert(carries_on(tracks, mp_idx, out[j]));
                    }
                }
            }
        }
    }
}

proof fn lemma_nearest_is_first(
    pixel: Vec2F32,
    keypoints: Seq<Vec2F32>,
    radius: Vec2F32,
    n: nat,
)
    requires
        n <= keypoints.len(),
        n <= usize::MAX,
    ensures
        nearest(pixel, keypoints, radius, n) matches Some(best) ==> forall|i: int|
            0 <= i < best && is_within(#[trigger] keypoints[i], pixel, radius) ==> above(
                squared_length(difference(keypoints[i], pixel)),
                squared_length(difference(keypoints[best as int], pixel)),
            ),
    decreases n,
{
    if n > 0 {
        lemma_nearest(pixel, keypoints, radius, (n - 1) as nat);
        lemma_nearest_is_first(pixel, keypoints, radius, (n - 1) as nat);
    }
}

/// A track is snapped where it has a map point and a keypoint is within the radius of it, and
/// then to the first of the nearest; the correspondences come in the order of the tracks.
pub proof fn lemma_snapped(tracks: Seq<Track>, keypoints: Seq<Vec2F32>, radius: Vec2F32)
    requires
        tracks.len() <= usize::MAX,
        keypoints.len() <= usize::MAX,
    ensures
        ({
            let out = snapped(tracks, keypoints, radius);
            let taken = crate::selection::indices_where(
                tracks.len(),
                |i: int|
                    tracks[i].map_point_idx is Some && exists|k: int|
                        0 <= k < keypoints.len() && at_least(
                            squared_length(radius),
                            squared_length(difference(#[trigger] keypoints[k], tracks[i].pixel)),
                        ),
            );
            &&& out.len() == taken.len()
            &&& forall|j: int|
                0 <= j < out.len() ==> {
                    let track = tracks[taken[j] as int];
                    let best = (#[trigger] out[j]).1 as int;
                    let mine = squared_length(difference(keypoints[best], track.pixel));
                    &&& Some(out[j].0) == track.map_point_idx
                    &&& best < keypoints.len()
                    &&& at_least(squared_length(radius), mine)
                    &&& forall|k: int|
                        0 <= k < keypoints.len() && at_least(
                            squared_length(radius),
                            squared_length(difference(#[trigger] keypoints[k], track.pixel)),
                        ) ==> {
                            let other = squared_length(difference(keypoints[k], track.pixel));
                            &&& at_least(other, mine)
                            &&& k < best ==> above(other, mine)
                        }
                }
        }),
    decreases tracks.len(),
{
    let takes = |i: int|
        tracks[i].map_point_idx is Some && exists|k: int|
            0 <= k < keypoints.len() && at_least(
                squared_length(radius),
                squared_length(difference(#[trigger] keypoints[k], tracks[i].pixel)),
            );
    if tracks.len() > 0 {
        let head = tracks.drop_last();
        let n = (tracks.len() - 1) as nat;
        lemma_snapped(head, keypoints, radius);
        let takes_head = |i: int|
            head[i].map_point_idx is Some && exists|k: int|
                0 <= k < keypoints.len() && at_least(
                    squared_length(radius),
                    squared_length(difference(#[trigger] keypoints[k], head[i].pixel)),
                );
        crate::selection::lemma_indices_where_agree(n, takes_head, takes);
        crate::selection::lemma_indices_where(n, takes);
        let earlier = crate::selection::indices_where(n, takes);
        let taken = crate::selection::indices_where(tracks.len(), takes);
        let before = snapped(head, keypoints, radius);
        let out = snapped(tracks, keypoints, radius);
        let last = tracks.last();
        assert(last == tracks[n as int]);
        lemma_nearest(last.pixel, keypoints, radius, keypoints.len());
        lemma_nearest_is_first(last.pixel, keypoints, radius, keypoints.len());
        let found = nearest(last.pixel, keypoints, radius, keypoints.len());
        assert(takes(n as int) <==> last.map_point_idx is Some && found is Some) by {
            if found is Some {
                assert(is_within(keypoints[found->0 as int], last.pixel, radius));
            } else if takes(n as int) {
                let k = choose|k: int|
                    0 <= k < keypoints.len() && at_least(
                        squared_length(radius),
                        squared_length(difference(#[trigger] keypoints[k], last.pixel)),
                    );
                assert(!is_within(keypoints[k], last.pixel, radius));
            }
        }
        assert forall|j: int| 0 <= j < out.len() implies {
            let track = tracks[taken[j] as int];
            let best = (#[trigger] out[j]).1 as int;
            let mine = squared_length(difference(keypoints[best], track.pixel));
            &&& Some(out[j].0) == track.map_point_idx
            &&& best < keypoints.len()
            &&& at_least(squared_length(radius), mine)
            &&& forall|k: int|
                0 <= k < keypoints.len() && at_least(
                    squared_length(radius),
                    squared_length(difference(#[trigger] keypoints[k], track.pixel)),
                ) ==> {
                    let other = squared_length(difference(keypoints[k], track.pixel));
                    &&& at_least(other, mine)
                    &&& k < best ==> above(other, mine)
                }
        } by {
            if j < before.len() {
                assert(out[j] == before[j]);
                assert(taken[j] == earlier[j]);
                assert(head[earlier[j] as int] == tracks[earlier[j] as int]);
            } else {
                assert(taken[j] == n);
                let best = found->0 as int;
                assert forall|k: int|
                    0 <= k < keypoints.len() && at_least(
                        squared_length(radius),
                        squared_length(difference(#[trigger] keypoints[k], last.pixel)),
                    ) implies {
                    let other = squared_length(difference(keypoints[k], last.pixel));
                    let mine = squared_length(difference(keypoints[best], last.pixel));
                    &&& at_least(other, mine)
                    &&& k < best ==> above(other, mine)
                } by {
                    assert(is_within(keypoints[k], last.pixel, radius));
                }
            }
        }
    }
}

} // verus!
