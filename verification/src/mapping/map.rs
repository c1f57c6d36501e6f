//! Map: keyframes, map points, local-map selection, growth and culling.

use crate::frame::{copy_vec, descriptors, descriptors_of, same_frame, Frame};

use kornia_algebra::Vec3F64;
use vstd::prelude::*;

verus! {

/// A frame promoted into the map, with descriptor-to-map-point associations.
#[derive(Debug)]
pub struct Keyframe {
    pub frame: Frame,
    /// For each descriptor index in `frame.features`, associated map-point index.
    pub map_point_by_desc_idx: Vec<Option<usize>>,
}

impl Clone for Keyframe {
    fn clone(&self) -> (copy: Keyframe)
        ensures
            same_frame(copy.frame, self.frame),
            copy.map_point_by_desc_idx@ == self.map_point_by_desc_idx@,
    {
        Keyframe {
            frame: self.frame.clone(),
            map_point_by_desc_idx: copy_vec(&self.map_point_by_desc_idx),
        }
    }
}

impl Keyframe {
    /// Creates a keyframe from a frame, with empty map-point associations.
    pub fn from_frame(frame: Frame) -> (keyframe: Keyframe)
        ensures
            keyframe.frame == frame,
            keyframe.map_point_by_desc_idx@ == no_links(descriptors_of(frame.features).len()),
    {
        let n: usize = descriptors(&frame.features).len();
        let map_point_by_desc_idx: Vec<Option<usize>> = vec![None; n];
        assert(map_point_by_desc_idx@ =~= no_links(n as nat));
        Keyframe { frame, map_point_by_desc_idx }
    }
}

/// A persistent 3D landmark in the map.
#[derive(Debug, Clone, Copy)]
pub struct MapPoint {
    /// 3D position in world frame.
    pub position: Vec3F64,
    /// ORB descriptor used for projection-guided matching.
    pub descriptor: [u8; 32],
    /// Index of the keyframe that first observed this point.
    pub keyframe_idx: usize,
    /// Number of frames where this point was in the camera frustum.
    pub n_visible: u32,
    /// Number of frames where this point was successfully matched.
    pub n_found: u32,
    /// Whether this point has been culled (logically deleted).
    pub culled: bool,
}

/// In-memory map storage for keyframes and persistent map points.
#[derive(Debug)]
pub struct SlamMap {
    keyframes: Vec<Keyframe>,
    map_points: Vec<MapPoint>,
}

/// `n` association slots, none of them filled.
pub open spec fn no_links(n: nat) -> Seq<Option<usize>> {
    Seq::new(n, |i: int| None)
}

/// Position of the first keyframe with frame index `idx`, looking from `from` on;
/// the number of keyframes if there is none.
pub open spec fn position_from(kfs: Seq<Keyframe>, idx: usize, from: int) -> int
    decreases kfs.len() - from,
{
    if from >= kfs.len() {
        kfs.len() as int
    } else if kfs[from].frame.idx == idx {
        from
    } else {
        position_from(kfs, idx, from + 1)
    }
}

/// Position of the first keyframe with frame index `idx`.
pub open spec fn position_of(kfs: Seq<Keyframe>, idx: usize) -> int {
    position_from(kfs, idx, 0)
}

/// `kfs` with `kf` in the place of the first keyframe of the same frame index,
/// or at the end if there is none.
pub open spec fn upserted(kfs: Seq<Keyframe>, kf: Keyframe) -> Seq<Keyframe> {
    let p = position_of(kfs, kf.frame.idx);
    if p < kfs.len() {
        kfs.update(p, kf)
    } else {
        kfs.push(kf)
    }
}

impl Clone for SlamMap {
    fn clone(&self) -> (copy: SlamMap)
        ensures
            copy.pts() == self.pts(),
            copy.kfs().len() == self.kfs().len(),
            forall|k: int|
                0 <= k < self.kfs().len() ==> {
                    &&& same_frame((#[trigger] copy.kfs()[k]).frame, self.kfs()[k].frame)
                    &&& copy.kfs()[k].map_point_by_desc_idx@
                        == self.kfs()[k].map_point_by_desc_idx@
                },
    {
        let mut keyframes: Vec<Keyframe> = Vec::new();
        let mut i: usize = 0;
        while i < self.keyframes.len()
            invariant
                i <= self.keyframes@.len(),
                keyframes@.len() == i,
                forall|k: int|
                    0 <= k < i ==> {
                        &&& same_frame((#[trigger] keyframes@[k]).frame, self.keyframes@[k].frame)
                        &&& keyframes@[k].map_point_by_desc_idx@
                            == self.keyframes@[k].map_point_by_desc_idx@
                    },
            decreases self.keyframes@.len() - i,
        {
            keyframes.push(self.keyframes[i].clone());
            i += 1;
        }
        SlamMap { keyframes, map_points: copy_vec(&self.map_points) }
    }
}

impl SlamMap {
    /// The keyframes, in insertion order.
    pub closed spec fn kfs(&self) -> Seq<Keyframe> {
        self.keyframes@
    }

    /// The map points, by index.
    pub closed spec fn pts(&self) -> Seq<MapPoint> {
        self.map_points@
    }

    /// Creates an empty map.
    pub fn new() -> (map: SlamMap)
        ensures
            map.kfs() == Seq::<Keyframe>::empty(),
            map.pts() == Seq::<MapPoint>::empty(),
    {
        SlamMap { keyframes: Vec::new(), map_points: Vec::new() }
    }

    /// Returns all keyframes.
    pub fn keyframes(&self) -> (all: &[Keyframe])
        ensures
            all@ == self.kfs(),
    {
        self.keyframes.as_slice()
    }

    /// Returns all map points.
    pub fn map_points(&self) -> (all: &[MapPoint])
        ensures
            all@ == self.pts(),
    {
        self.map_points.as_slice()
    }

    /// Returns the position of the keyframe with frame index `idx`.
    fn keyframe_position(&self, idx: usize) -> (pos: usize)
        ensures
            pos == position_of(self.kfs(), idx),
            pos <= self.kfs().len(),
            pos < self.kfs().len() ==> self.kfs()[pos as int].frame.idx == idx,
    {
        let mut pos: usize = 0;
        while pos < self.keyframes.len() && self.keyframes[pos].frame.idx != idx
            invariant
                pos <= self.keyframes@.len(),
                position_of(self.keyframes@, idx) == position_from(self.keyframes@, idx, pos as int),
            decreases self.keyframes@.len() - pos,
        {
            pos += 1;
        }
        pos
    }

    /// Returns the keyframe with frame index `idx`, if present.
    pub fn get_keyframe(&self, idx: usize) -> (found: Option<&Keyframe>)
        ensures
            match found {
                Some(kf) => position_of(self.kfs(), idx) < self.kfs().len() && *kf
                    == self.kfs()[position_of(self.kfs(), idx)] && kf.frame.idx == idx,
                None => position_of(self.kfs(), idx) == self.kfs().len(),
            },
    {
        let pos: usize = self.keyframe_position(idx);
        if pos < self.keyframes.len() {
            Some(&self.keyframes[pos])
        } else {
            None
        }
    }

    /// Inserts or replaces a keyframe by frame index.
    pub fn upsert_keyframe(&mut self, keyframe: Keyframe)
        ensures
            final(self).kfs() == upserted(old(self).kfs(), keyframe),
            final(self).pts() == old(self).pts(),
    {
        let pos: usize = self.keyframe_position(keyframe.frame.idx);
        if pos < self.keyframes.len() {
            self.keyframes[pos] = keyframe;
        } else {
            self.keyframes.push(keyframe);
        }
    }

    /// Appends a map point and returns its index.
    pub fn push_map_point(&mut self, map_point: MapPoint) -> (idx: usize)
        ensures
            idx == old(self).pts().len(),
            final(self).pts() == old(self).pts().push(map_point),
            final(self).kfs() == old(self).kfs(),
    {
        let idx: usize = self.map_points.len();
        self.map_points.push(map_point);
        idx
    }

    /// Returns a mutable reference to all map points.
    pub fn map_points_mut(&mut self) -> (all: &mut Vec<MapPoint>)
        ensures
            all@ == old(self).pts(),
            final(self).pts() == final(all)@,
            final(self).kfs() == old(self).kfs(),
    {
        &mut self.map_points
    }

    /// Returns a mutable reference to all keyframes.
    pub fn keyframes_mut(&mut self) -> (all: &mut Vec<Keyframe>)
        ensures
            all@ == old(self).kfs(),
            final(self).kfs() == final(all)@,
            final(self).pts() == old(self).pts(),
    {
        &mut self.keyframes
    }
}

/// The search from `from` on finds the first keyframe with the frame index there.
proof fn lemma_position_from(kfs: Seq<Keyframe>, idx: usize, from: int)
    requires
        0 <= from <= kfs.len(),
    ensures
        from <= position_from(kfs, idx, from) <= kfs.len(),
        position_from(kfs, idx, from) < kfs.len() ==> kfs[position_from(
            kfs,
            idx,
            from,
        )].frame.idx == idx,
        forall|j: int|
            from <= j < position_from(kfs, idx, from) ==> (#[trigger] kfs[j]).frame.idx != idx,
    decreases kfs.len() - from,
{
    if from < kfs.len() && kfs[from].frame.idx != idx {
        lemma_position_from(kfs, idx, from + 1);
    }
}

proof fn lemma_position_is(kfs: Seq<Keyframe>, idx: usize, p: int)
    requires
        0 <= p <= kfs.len(),
        forall|j: int| 0 <= j < p ==> (#[trigger] kfs[j]).frame.idx != idx,
        p < kfs.len() ==> kfs[p].frame.idx == idx,
    ensures
        position_of(kfs, idx) == p,
{
    lemma_position_from(kfs, idx, 0);
    let q = position_of(kfs, idx);
    if q < p {
        assert(kfs[q].frame.idx != idx);
    }
    if p < q {
        assert(kfs[p].frame.idx != idx);
    }
}

/// No two keyframes have the same frame index.
pub open spec fn distinct_frames(kfs: Seq<Keyframe>) -> bool {
    forall|i: int, j: int|
        0 <= i < j < kfs.len() ==> (#[trigger] kfs[i]).frame.idx != (#[trigger] kfs[j]).frame.idx
}

/// A keyframe that was put in is found under its frame index, and the search for any other
/// frame index finds what it found before.
pub proof fn lemma_upsert_then_get(kfs: Seq<Keyframe>, kf: Keyframe, other: usize)
    ensures
        position_of(upserted(kfs, kf), kf.frame.idx) < upserted(kfs, kf).len(),
        upserted(kfs, kf)[position_of(upserted(kfs, kf), kf.frame.idx)] == kf,
        other != kf.frame.idx ==> {
            let p = position_of(kfs, other);
            let q = position_of(upserted(kfs, kf), other);
            &&& p < kfs.len() <==> q < upserted(kfs, kf).len()
            &&& p < kfs.len() ==> upserted(kfs, kf)[q] == kfs[p]
        },
{
    let up = upserted(kfs, kf);
    let p = position_of(kfs, kf.frame.idx);
    lemma_position_from(kfs, kf.frame.idx, 0);
    assert(up[p] == kf);
    assert forall|j: int| 0 <= j < p implies (#[trigger] up[j]).frame.idx != kf.frame.idx by {
        assert(up[j] == kfs[j]);
    }
    lemma_position_is(up, kf.frame.idx, p);
    if other != kf.frame.idx {
        let q = position_of(kfs, other);
        lemma_position_from(kfs, other, 0);
        if q < kfs.len() {
            assert(up[q] == kfs[q]);
            assert forall|j: int| 0 <= j < q implies (#[trigger] up[j]).frame.idx != other by {
                assert(j != p ==> up[j] == kfs[j]);
            }
            lemma_position_is(up, other, q);
        } else {
            assert forall|j: int| 0 <= j < up.len() implies (#[trigger] up[j]).frame.idx
                != other by {
                assert(j != p ==> up[j] == kfs[j]);
            }
            lemma_position_is(up, other, up.len() as int);
        }
    }
}

/// Where frame indices are distinct they stay so when a keyframe is put in.
pub proof fn lemma_upsert_keeps_distinct(kfs: Seq<Keyframe>, kf: Keyframe)
    requires
        distinct_frames(kfs),
    ensures
        distinct_frames(upserted(kfs, kf)),
{
    let up = upserted(kfs, kf);
    let p = position_of(kfs, kf.frame.idx);
    lemma_position_from(kfs, kf.frame.idx, 0);
    assert forall|i: int, j: int| 0 <= i < j < up.len() implies (#[trigger] up[i]).frame.idx != (
    #[trigger] up[j]).frame.idx by {
        assert(i != p ==> up[i] == kfs[i]);
        assert(j != p ==> up[j] == kfs[j]);
        if i == p {
            assert(kfs[p].frame.idx == kf.frame.idx);
        }
        if j == p {
            assert(kfs[i].frame.idx != kf.frame.idx);
        }
    }
}

/// The position of a frame index is that of the first keyframe with it, and the number of
/// keyframes where none has it.
pub proof fn lemma_position_of(kfs: Seq<Keyframe>, idx: usize)
    ensures
        0 <= position_of(kfs, idx) <= kfs.len(),
        position_of(kfs, idx) < kfs.len() ==> kfs[position_of(kfs, idx)].frame.idx == idx,
        forall|j: int|
            0 <= j < position_of(kfs, idx) ==> (#[trigger] kfs[j]).frame.idx != idx,
{
    lemma_position_from(kfs, idx, 0);
}

/// A keyframe that is put in takes the place of the first with its frame index, and comes last
/// where there is none; all others stay where they are.
pub proof fn lemma_upserted(kfs: Seq<Keyframe>, kf: Keyframe)
    ensures
        forall|k: int|
            {
                &&& 0 <= k < kfs.len()
                &&& (#[trigger] kfs[k]).frame.idx == kf.frame.idx
                &&& forall|j: int| 0 <= j < k ==> (#[trigger] kfs[j]).frame.idx != kf.frame.idx
            } ==> {
                &&& upserted(kfs, kf).len() == kfs.len()
                &&& upserted(kfs, kf)[k] == kf
                &&& forall|j: int|
                    0 <= j < kfs.len() && j != k ==> #[trigger] upserted(kfs, kf)[j] == kfs[j]
            },
        (forall|k: int| 0 <= k < kfs.len() ==> (#[trigger] kfs[k]).frame.idx != kf.frame.idx)
            ==> upserted(kfs, kf) == kfs.push(kf),
{
    lemma_position_of(kfs, kf.frame.idx);
    let p = position_of(kfs, kf.frame.idx);
    assert forall|k: int|
        {
            &&& 0 <= k < kfs.len()
            &&& (#[trigger] kfs[k]).frame.idx == kf.frame.idx
            &&& forall|j: int| 0 <= j < k ==> (#[trigger] kfs[j]).frame.idx != kf.frame.idx
        } implies k == p by {
        if k < p {
            assert(kfs[k].frame.idx != kf.frame.idx);
        }
        if p < k {
            assert(kfs[p].frame.idx != kf.frame.idx);
        }
    }
}

} // verus!
