//! AprilTag-based metric anchor.
//!
//! Observes a known physical tag from streamed keyframes and accumulates
//! map-frame snapshots of the tag's four corners. Once the tag has been seen
//! from at least two distinct keyframes, [`AprilTagAnchor::solve`] has a similarity
//! transform fitted that maps the SLAM map frame onto the metric tag frame.

use crate::double::at_least;
use crate::geometry::{compose, composed, inverse_pose, invert, transform, transformed};
use crate::gray_image::GrayImage;
use crate::selection::{select, selects};
use crate::single::{is_at_least, number, rank, rank_of};
use kornia_3d::camera::PinholeCamera;
use kornia_3d::pose::Pose3d;
use kornia_algebra::{Vec2F64, Vec3F64};
use kornia_apriltag::decoder::Detection;
use kornia_apriltag::family::TagFamilyKind as DecoderFamily;
use kornia_apriltag::{AprilTagDecoder, DecodeTagsConfig};
use kornia_image::{Image, ImageSize};
use std::collections::HashSet;
use vstd::prelude::*;

verus! {

broadcast use vstd::std_specs::hash::group_hash_axioms;

/// Fewest keyframes that must have observed the tag.
pub const MIN_KEYFRAMES: usize = 2;

/// How often the pose of a tag is refined.
pub const POSE_ITERATIONS: usize = 50;

/// The bits of thirty, in single precision.
pub const DEFAULT_MIN_MARGIN: u32 = 0x41f0_0000;

/// The tag families that the decoder knows by itself.
#[derive(Debug, Clone, Copy, PartialEq, Eq)]
pub enum TagFamilyKind {
    Tag16H5,
    Tag36H11,
    Tag36H10,
    Tag25H9,
    TagCircle21H7,
    TagCircle49H12,
    TagCustom48H12,
    TagStandard41H12,
    TagStandard52H13,
}

/// `kornia_apriltag::AprilTagDecoder`: a decoder with its buffers, carried through unread.
#[verifier::external_type_specification]
#[verifier::external_body]
pub struct ExAprilTagDecoder(kornia_apriltag::AprilTagDecoder);

/// `kornia_apriltag::decoder::Detection`: a tag that was detected in an image.
#[verifier::external_type_specification]
#[verifier::external_body]
pub struct ExDetection(kornia_apriltag::decoder::Detection);

/// Configuration for the AprilTag anchor.
#[derive(Debug)]
pub struct AprilTagAnchorConfig {
    /// Decode only this tag id.
    pub tag_id: u16,
    /// Physical tag size in metres (square tag edge length), in both components.
    pub tag_size: Vec2F64,
    /// Tag family used by the decoder.
    pub family: TagFamilyKind,
    /// Minimum acceptable decision margin (tag finder confidence score), as the bits of its
    /// single-precision representation.
    pub min_margin_bits: u32,
    /// Maximum tolerable Hamming distance from the canonical tag code.
    pub max_hamming: u8,
}

impl AprilTagAnchorConfig {
    /// The default thresholds, for the tag with number zero.
    pub fn new(tag_size: Vec2F64, family: TagFamilyKind) -> (config: AprilTagAnchorConfig)
        ensures
            config.tag_id == 0,
            config.tag_size == tag_size,
            config.family == family,
            config.min_margin_bits == DEFAULT_MIN_MARGIN,
            config.max_hamming == 0,
    {
        AprilTagAnchorConfig {
            tag_id: 0,
            tag_size,
            family,
            min_margin_bits: DEFAULT_MIN_MARGIN,
            max_hamming: 0,
        }
    }
}

/// What the anchor reads of a detected tag.
#[derive(Debug, Clone, Copy, PartialEq, Eq)]
pub struct TagDetection {
    /// Id of the tag.
    pub id: u16,
    /// Hamming distance from the canonical tag code.
    pub hamming: u8,
    /// Decision margin, as the bits of its single-precision representation.
    pub margin_bits: u32,
}

/// The decoder that `AprilTagDecoder::new` builds for one tag family and an image size.
pub uninterp spec fn fresh_decoder(
    family: TagFamilyKind,
    width: usize,
    height: usize,
) -> Option<AprilTagDecoder>;

/// The decoder was built for one of the families that it knows by itself. With a family of
/// the caller's own decoding may panic.
pub uninterp spec fn is_ready(decoder: AprilTagDecoder) -> bool;

/// On some machine, `AprilTagDecoder::decode` returns `found` for an image and leaves the
/// decoder as `after`.
pub uninterp spec fn may_decode(
    before: AprilTagDecoder,
    image: (usize, usize, Seq<u8>),
    after: AprilTagDecoder,
    found: Option<Seq<Detection>>,
) -> bool;

/// What a detection says of its tag.
pub uninterp spec fn reading(detection: Detection) -> TagDetection;

/// On some machine, `Detection::estimate_pose` returns `pose` as the better of its two poses.
pub uninterp spec fn may_locate(
    detection: Detection,
    camera: PinholeCamera,
    tag_size: Vec2F64,
    iterations: usize,
    pose: Option<Pose3d>,
) -> bool;

/// `AprilTagDecoder::new` with the default `DecodeTagsConfig` for one family: the decoder for
/// images of one size, a function of the family and the size. There is none for an empty
/// image, and one that there is can decode.
#[verifier::external_body]
fn build_decoder(family: &TagFamilyKind, width: usize, height: usize) -> (decoder: Option<
    AprilTagDecoder,
>)
    ensures
        decoder == fresh_decoder(*family, width, height),
        decoder is Some ==> width > 0 && height > 0,
        decoder is Some ==> is_ready(decoder->0),
{
    let family = match family {
        TagFamilyKind::Tag16H5 => DecoderFamily::Tag16H5,
        TagFamilyKind::Tag36H11 => DecoderFamily::Tag36H11,
        TagFamilyKind::Tag36H10 => DecoderFamily::Tag36H10,
        TagFamilyKind::Tag25H9 => DecoderFamily::Tag25H9,
        TagFamilyKind::TagCircle21H7 => DecoderFamily::TagCircle21H7,
        TagFamilyKind::TagCircle49H12 => DecoderFamily::TagCircle49H12,
        TagFamilyKind::TagCustom48H12 => DecoderFamily::TagCustom48H12,
        TagFamilyKind::TagStandard41H12 => DecoderFamily::TagStandard41H12,
        TagFamilyKind::TagStandard52H13 => DecoderFamily::TagStandard52H13,
    };
    let config = DecodeTagsConfig::new(vec![family]).ok()?;
    AprilTagDecoder::new(config, ImageSize { width, height }).ok()
}

/// `AprilTagDecoder::decode`: the tags in an image, without duplicates. The area that an edge
/// in the image spans is computed in 32 bits. The decoder stays one that can decode. What it finds is stated only as something that it may find: its
/// arithmetic depends on the machine.
#[verifier::external_body]
fn decode(decoder: &mut AprilTagDecoder, image: &GrayImage<'_>) -> (found: Option<Vec<Detection>>)
    requires
        image.wf(),
        image.is_countable(),
        is_ready(*old(decoder)),
    ensures
        may_decode(*old(decoder), image.content(), *final(decoder), listed(found)),
        is_ready(*final(decoder)),
{
    let size = ImageSize { width: image.width, height: image.height };
    let image = Image::<u8, 1>::from_size_slice(size, image.pixels).ok()?;
    decoder.decode(&image).ok()
}

/// The fields `Detection::id`, `Detection::hamming` and `Detection::decision_margin`.
#[verifier::external_body]
fn read(detection: &Detection) -> (tag: TagDetection)
    ensures
        tag == reading(*detection),
{
    TagDetection {
        id: detection.id,
        hamming: detection.hamming,
        margin_bits: detection.decision_margin.to_bits(),
    }
}

/// `Detection::estimate_pose`: the pose of a tag in the camera frame, the better of the two
/// that fit its corners. Which pose it gives is stated only as one that it may give: its
/// arithmetic depends on the machine.
#[verifier::external_body]
fn locate(detection: &Detection, camera: &PinholeCamera, tag_size: &Vec2F64, iterations: usize) -> (pose:
    Option<Pose3d>)
    ensures
        may_locate(*detection, *camera, *tag_size, iterations, pose),
{
    let found = detection.estimate_pose(camera, tag_size.x, iterations);
    found.ok().map(|poses| poses.best.pose)
}

/// The detections as a sequence.
pub open spec fn listed(found: Option<Vec<Detection>>) -> Option<Seq<Detection>> {
    match found {
        Some(detections) => Some(detections@),
        None => None,
    }
}

/// What each detection says of its tag.
pub open spec fn readings(detections: Seq<Detection>) -> Seq<TagDetection> {
    detections.map_values(|detection: Detection| reading(detection))
}

fn read_all(detections: &Vec<Detection>) -> (tags: Vec<TagDetection>)
    ensures
        tags@ == readings(detections@),
{
    let mut tags: Vec<TagDetection> = Vec::new();
    let mut i: usize = 0;
    while i < detections.len()
        invariant
            i <= detections@.len(),
            tags@ == readings(detections@.take(i as int)),
        decreases detections@.len() - i,
    {
        tags.push(read(&detections[i]));
        i += 1;
        assert(tags@ =~= readings(detections@.take(i as int)));
    }
    assert(detections@.take(i as int) =~= detections@);
    tags
}

/// One map-frame snapshot of the anchor tag's four corners.
#[derive(Debug, Clone, Copy)]
pub struct TagObservation {
    /// Index of the keyframe in which the tag was observed.
    pub kf_idx: usize,
    /// Tag corners in map frame, ordered top-right, bottom-right,
    /// bottom-left, top-left (matching the decoder's quad corner winding).
    pub corners_map: [Vec3F64; 4],
}

/// Errors produced by [`AprilTagAnchor::solve`].
#[derive(Debug, Clone, Copy, PartialEq, Eq)]
pub enum AprilTagAnchorError {
    /// Too few distinct keyframes have observed the tag to constrain the full
    /// similarity transform.
    InsufficientObservations {
        /// Number of distinct keyframes that observed the tag.
        keyframes: usize,
    },
    /// The pipeline has no AprilTag anchor configured.
    AnchorNotConfigured,
}

/// Accumulates anchor-tag observations across keyframes.
pub struct AprilTagAnchor {
    config: AprilTagAnchorConfig,
    decoder: Option<AprilTagDecoder>,
    observations: Vec<TagObservation>,
}

/// The detection is of the configured tag, and good enough.
pub open spec fn is_acceptable(config: AprilTagAnchorConfig, detection: TagDetection) -> bool {
    detection.id == config.tag_id && detection.hamming <= config.max_hamming
        && at_least(number(detection.margin_bits), number(config.min_margin_bits))
}

/// The last of those with the greatest margin among the acceptable ones of the first `n`
/// detections.
pub open spec fn best_detection(
    config: AprilTagAnchorConfig,
    detections: Seq<TagDetection>,
    n: nat,
) -> Option<usize>
    decreases n,
{
    if n == 0 {
        None
    } else {
        let best = best_detection(config, detections, (n - 1) as nat);
        if is_acceptable(config, detections[n - 1]) && (best is None
            || rank(detections[best->0 as int].margin_bits) <= rank(detections[n - 1].margin_bits)) {
            Some((n - 1) as usize)
        } else {
            best
        }
    }
}

/// The keyframes that the observations are from.
pub open spec fn keyframes_of(observations: Seq<TagObservation>) -> Set<usize>
    decreases observations.len(),
{
    if observations.len() == 0 {
        Set::empty()
    } else {
        keyframes_of(observations.drop_last()).insert(observations.last().kf_idx)
    }
}

/// `observation` is that of a tag with the given pose in the camera frame.
pub open spec fn is_observation(
    observation: TagObservation,
    kf_idx: usize,
    pose_world_to_cam: Pose3d,
    tag_to_cam: Pose3d,
    canonical: [Vec3F64; 4],
) -> bool {
    let tag_to_map = composed(inverse_pose(pose_world_to_cam), tag_to_cam);
    &&& observation.kf_idx == kf_idx
    &&& forall|i: int|
        0 <= i < 4 ==> #[trigger] observation.corners_map@[i] == transformed(
            tag_to_map,
            canonical@[i],
        )
}

/// `after` has one more observation than `before` where a pose was found, else they are the
/// same.
pub open spec fn is_recorded(
    before: Seq<TagObservation>,
    after: Seq<TagObservation>,
    kf_idx: usize,
    pose_world_to_cam: Pose3d,
    canonical: [Vec3F64; 4],
    tag_to_cam: Option<Pose3d>,
) -> bool {
    match tag_to_cam {
        None => after == before,
        Some(pose) => exists|observation: TagObservation|
            {
                &&& #[trigger] is_observation(
                    observation,
                    kf_idx,
                    pose_world_to_cam,
                    pose,
                    canonical,
                )
                &&& after == before.push(observation)
            },
    }
}

/// `after` are the observations after the tags that were found in a keyframe: the best
/// detection is recorded, where its pose is found.
pub open spec fn is_ingested(
    config: AprilTagAnchorConfig,
    before: Seq<TagObservation>,
    after: Seq<TagObservation>,
    kf_idx: usize,
    pose_world_to_cam: Pose3d,
    camera: PinholeCamera,
    canonical: [Vec3F64; 4],
    found: Option<Seq<Detection>>,
) -> bool {
    match found {
        None => after == before,
        Some(detections) => match best_detection(
            config,
            readings(detections),
            detections.len(),
        ) {
            None => after == before,
            Some(best) => exists|pose: Option<Pose3d>|
                {
                    &&& #[trigger] may_locate(
                        detections[best as int],
                        camera,
                        config.tag_size,
                        POSE_ITERATIONS,
                        pose,
                    )
                    &&& is_recorded(before, after, kf_idx, pose_world_to_cam, canonical, pose)
                },
        },
    }
}

/// The corners of all observations, one after the other.
pub open spec fn corners_of(observations: Seq<TagObservation>) -> Seq<Vec3F64>
    decreases observations.len(),
{
    if observations.len() == 0 {
        Seq::empty()
    } else {
        corners_of(observations.drop_last()) + observations.last().corners_map@
    }
}

/// The canonical corners, `n` times.
pub open spec fn repeated(canonical: Seq<Vec3F64>, n: nat) -> Seq<Vec3F64>
    decreases n,
{
    if n == 0 {
        Seq::empty()
    } else {
        repeated(canonical, (n - 1) as nat) + canonical
    }
}

/// `result` is what fitting the observations gives: an error where they are from too few
/// keyframes, before or after those that are not consistent are left out; else what `fit`
/// gives for the corners and the canonical corners.
pub open spec fn is_fit<A, K, F>(
    observations: Seq<TagObservation>,
    canonical: [Vec3F64; 4],
    is_consistent: K,
    fit: F,
    result: Result<A, AprilTagAnchorError>,
) -> bool where
    K: Fn(TagObservation) -> bool,
    F: Fn(&Vec<Vec3F64>, &Vec<Vec3F64>) -> A,
 {
    let n = keyframes_of(observations).len();
    if n < MIN_KEYFRAMES {
        result == Result::<A, _>::Err(
            AprilTagAnchorError::InsufficientObservations { keyframes: n as usize },
        )
    } else {
        exists|screened: Seq<TagObservation>|
            {
                &&& #[trigger] selects(is_consistent, observations, screened)
                &&& if keyframes_of(screened).len() < MIN_KEYFRAMES {
                    result == Result::<A, _>::Err(
                        AprilTagAnchorError::InsufficientObservations {
                            keyframes: keyframes_of(screened).len() as usize,
                        },
                    )
                } else {
                    result is Ok && is_fit_of(screened, canonical, fit, result->Ok_0)
                }
            }
    }
}

/// `fitted` is what `fit` gives for the corners and the canonical corners.
pub open spec fn is_fit_of<A, F: Fn(&Vec<Vec3F64>, &Vec<Vec3F64>) -> A>(
    screened: Seq<TagObservation>,
    canonical: [Vec3F64; 4],
    fit: F,
    fitted: A,
) -> bool {
    exists|observed: Vec<Vec3F64>, expected: Vec<Vec3F64>|
        {
            &&& observed@ == corners_of(screened)
            &&& expected@ == repeated(canonical@, screened.len())
            &&& #[trigger] call_ensures(fit, (&observed, &expected), fitted)
        }
}

/// The best detection is acceptable, and no acceptable one has a greater margin; there is none
/// only where none is acceptable.
pub proof fn lemma_best_detection(
    config: AprilTagAnchorConfig,
    detections: Seq<TagDetection>,
    n: nat,
)
    requires
        n <= detections.len(),
        n <= usize::MAX,
    ensures
        match best_detection(config, detections, n) {
            None => forall|i: int|
                0 <= i < n ==> !is_acceptable(config, #[trigger] detections[i]),
            Some(best) => {
                &&& best < n
                &&& is_acceptable(config, detections[best as int])
                &&& forall|i: int|
                    0 <= i < n && is_acceptable(config, #[trigger] detections[i])
                        ==> rank(detections[i].margin_bits) <= rank(
                        detections[best as int].margin_bits,
                    )
                &&& forall|i: int|
                    best < i < n && is_acceptable(config, #[trigger] detections[i])
                        ==> rank(detections[i].margin_bits) < rank(
                        detections[best as int].margin_bits,
                    )
            },
        },
    decreases n,
{
    if n > 0 {
        lemma_best_detection(config, detections, (n - 1) as nat);
    }
}

/// The detection of the configured tag with the greatest decision margin.
pub fn find_best_detection(config: &AprilTagAnchorConfig, detections: &[TagDetection]) -> (best: Option<
    usize,
>)
    ensures
        best == best_detection(*config, detections@, detections@.len()),
{
    let mut best: Option<usize> = None;
    let mut i: usize = 0;
    while i < detections.len()
        invariant
            i <= detections@.len(),
            best == best_detection(*config, detections@, i as nat),
            best is Some ==> best->0 < i,
        decreases detections@.len() - i,
    {
        let d = &detections[i];
        if d.id == config.tag_id && d.hamming <= config.max_hamming && is_at_least(
            d.margin_bits,
            config.min_margin_bits,
        ) {
            let higher = match best {
                None => true,
                Some(b) => rank_of(detections[b].margin_bits) <= rank_of(d.margin_bits),
            };
            if higher {
                best = Some(i);
            }
        }
        i += 1;
    }
    best
}

/// Number of distinct keyframes among the observations.
fn count_keyframes(observations: &[TagObservation]) -> (count: usize)
    ensures
        count == keyframes_of(observations@).len(),
{
    let mut seen: HashSet<usize> = HashSet::new();
    let mut i: usize = 0;
    assert(observations@.take(0) =~= Seq::empty());
    while i < observations.len()
        invariant
            i <= observations@.len(),
            seen@ == keyframes_of(observations@.take(i as int)),
        decreases observations@.len() - i,
    {
        assert(observations@.take(i + 1).drop_last() =~= observations@.take(i as int));
        seen.insert(observations[i].kf_idx);
        i += 1;
    }
    assert(observations@.take(i as int) =~= observations@);
    seen.len()
}

impl AprilTagAnchor {
    /// The configuration.
    pub closed spec fn spec_config(&self) -> AprilTagAnchorConfig {
        self.config
    }

    /// The decoder, once one was built.
    pub closed spec fn spec_decoder(&self) -> Option<AprilTagDecoder> {
        self.decoder
    }

    /// The accumulated observations, in order.
    pub closed spec fn spec_observations(&self) -> Seq<TagObservation> {
        self.observations@
    }

    /// The decoder, once one was built, can decode.
    pub open spec fn wf(&self) -> bool {
        self.spec_decoder() is Some ==> is_ready(self.spec_decoder()->0)
    }

    /// Creates an anchor with the given configuration.
    pub fn new(config: AprilTagAnchorConfig) -> (anchor: AprilTagAnchor)
        ensures
            anchor.wf(),
            anchor.spec_config() == config,
            anchor.spec_decoder() is None,
            anchor.spec_observations() == Seq::<TagObservation>::empty(),
    {
        AprilTagAnchor { config, decoder: None, observations: Vec::new() }
    }

    /// Returns the accumulated observations.
    pub fn observations(&self) -> (observations: &[TagObservation])
        ensures
            observations@ == self.spec_observations(),
    {
        self.observations.as_slice()
    }

    /// Total tag detections accumulated across keyframes.
    pub fn num_observations(&self) -> (count: usize)
        ensures
            count == self.spec_observations().len(),
    {
        self.observations.len()
    }

    /// Number of distinct keyframes that observed the tag.
    pub fn num_distinct_keyframes(&self) -> (count: usize)
        ensures
            count == keyframes_of(self.spec_observations()).len(),
    {
        count_keyframes(self.observations.as_slice())
    }

    /// Returns the anchor configuration.
    pub fn config(&self) -> (config: &AprilTagAnchorConfig)
        ensures
            *config == self.spec_config(),
    {
        &self.config
    }

    /// Adds an observation.
    pub fn push_observation(&mut self, observation: TagObservation)
        ensures
            final(self).spec_config() == old(self).spec_config(),
            final(self).spec_decoder() == old(self).spec_decoder(),
            final(self).spec_observations() == old(self).spec_observations().push(observation),
    {
        self.observations.push(observation);
    }

    /// Adds the observation of a tag with a pose in the camera frame, if there is one.
    /// `canonical` are the corners in the tag frame.
    pub fn record(
        &mut self,
        kf_idx: usize,
        pose_world_to_cam: &Pose3d,
        canonical: &[Vec3F64; 4],
        tag_to_cam: Option<Pose3d>,
    )
        ensures
            final(self).spec_config() == old(self).spec_config(),
            final(self).spec_decoder() == old(self).spec_decoder(),
            is_recorded(
                old(self).spec_observations(),
                final(self).spec_observations(),
                kf_idx,
                *pose_world_to_cam,
                *canonical,
                tag_to_cam,
            ),
    {
        if let Some(tag_pose) = tag_to_cam {
            let cam_to_map = invert(pose_world_to_cam);
            let tag_to_map = compose(&cam_to_map, &tag_pose);
            let observation = TagObservation {
                kf_idx,
                corners_map: [
                    transform(&tag_to_map, &canonical[0]),
                    transform(&tag_to_map, &canonical[1]),
                    transform(&tag_to_map, &canonical[2]),
                    transform(&tag_to_map, &canonical[3]),
                ],
            };
            assert(is_observation(
                observation,
                kf_idx,
                *pose_world_to_cam,
                tag_pose,
                *canonical,
            ));
            self.observations.push(observation);
        }
    }

    /// The decoder, or the one that is built for the first image.
    pub open spec fn decoder_for(&self, image: GrayImage<'_>) -> Option<AprilTagDecoder> {
        match self.spec_decoder() {
            Some(decoder) => Some(decoder),
            None => fresh_decoder(self.spec_config().family, image.width, image.height),
        }
    }

    /// Ingests the tags that were found in a keyframe: the corners of the detection of the
    /// configured tag with the greatest decision margin are stored in map frame, where its
    /// pose is found. `canonical` are the corners in the tag frame.
    pub fn ingest(
        &mut self,
        kf_idx: usize,
        pose_world_to_cam: &Pose3d,
        camera: &PinholeCamera,
        canonical: &[Vec3F64; 4],
        found: &Option<Vec<Detection>>,
    )
        ensures
            final(self).spec_config() == old(self).spec_config(),
            final(self).spec_decoder() == old(self).spec_decoder(),
            is_ingested(
                old(self).spec_config(),
                old(self).spec_observations(),
                final(self).spec_observations(),
                kf_idx,
                *pose_world_to_cam,
                *camera,
                *canonical,
                listed(*found),
            ),
    {
        let ghost before = *self;
        if let Some(detections) = found {
            let tags = read_all(detections);
            if let Some(best) = find_best_detection(&self.config, tags.as_slice()) {
                proof {
                    lemma_best_detection(self.config, tags@, tags.len() as nat);
                }
                let pose = locate(
                    &detections[best],
                    camera,
                    &self.config.tag_size,
                    POSE_ITERATIONS,
                );
                self.record(kf_idx, pose_world_to_cam, canonical, pose);
                assert(may_locate(
                    detections@[best as int],
                    *camera,
                    before.spec_config().tag_size,
                    POSE_ITERATIONS,
                    pose,
                ));
            }
        }
    }

    /// Ingests one keyframe image.
    ///
    /// The decoder is built for the size of the first image. The image is decoded,
    /// detections for the configured tag are filtered, and the corners of the one with the
    /// greatest decision margin are stored in map frame. Decoding or pose errors are
    /// ignored: a failed frame must never poison the SLAM chain. `canonical` are the corners
    /// in the tag frame.
    pub fn on_keyframe(
        &mut self,
        kf_idx: usize,
        image: &GrayImage<'_>,
        pose_world_to_cam: &Pose3d,
        camera: &PinholeCamera,
        canonical: &[Vec3F64; 4],
    )
        requires
            old(self).wf(),
            image.wf(),
            image.is_countable(),
        ensures
            final(self).wf(),
            final(self).spec_config() == old(self).spec_config(),
            match old(self).decoder_for(*image) {
                None => *final(self) == *old(self),
                Some(decoder) => exists|after: AprilTagDecoder, found: Option<Seq<Detection>>|
                    {
                        &&& #[trigger] may_decode(decoder, image.content(), after, found)
                        &&& final(self).spec_decoder() == Some(after)
                        &&& is_ingested(
                            old(self).spec_config(),
                            old(self).spec_observations(),
                            final(self).spec_observations(),
                            kf_idx,
                            *pose_world_to_cam,
                            *camera,
                            *canonical,
                            found,
                        )
                    },
            },
    {
        let ghost before = *self;
        let mut decoder = match self.decoder.take() {
            Some(decoder) => decoder,
            None => match build_decoder(&self.config.family, image.width, image.height) {
                None => {
                    return ;
                },
                Some(decoder) => decoder,
            },
        };
        let found = decode(&mut decoder, image);
        self.decoder = Some(decoder);
        let ghost said = listed(found);
        let ghost after = decoder;
        self.ingest(kf_idx, pose_world_to_cam, camera, canonical, &found);
        assert(may_decode(before.decoder_for(*image)->0, image.content(), after, said));
    }

    /// Fits the map-to-tag-frame similarity from the accumulated observations.
    ///
    /// Observations are screened first: a pose-estimation error corrupts all four corners of
    /// an observation together, so `is_consistent` judges observations as a whole. The
    /// survivors are flattened into corner pairs (`corners_map[i]` with canonical tag corner
    /// `i`) and fitted with `fit`. At least two distinct keyframes are required.
    pub fn solve<A, K, F>(&self, canonical: &[Vec3F64; 4], is_consistent: K, fit: F) -> (result:
        Result<A, AprilTagAnchorError>) where
        K: Fn(TagObservation) -> bool,
        F: Fn(&Vec<Vec3F64>, &Vec<Vec3F64>) -> A,

        requires
            forall|observation: TagObservation| call_requires(is_consistent, (observation,)),
            forall|observed: &Vec<Vec3F64>, expected: &Vec<Vec3F64>|
                call_requires(fit, (observed, expected)),
        ensures
            is_fit(self.spec_observations(), *canonical, is_consistent, fit, result),
    {
        let keyframes: usize = count_keyframes(self.observations.as_slice());
        if keyframes < MIN_KEYFRAMES {
            return Err(AprilTagAnchorError::InsufficientObservations { keyframes });
        }
        let screened = select(self.observations.as_slice(), is_consistent);
        let survivors: usize = count_keyframes(screened.as_slice());
        if survivors < MIN_KEYFRAMES {
            return Err(AprilTagAnchorError::InsufficientObservations { keyframes: survivors });
        }
        let mut observed: Vec<Vec3F64> = Vec::new();
        let mut expected: Vec<Vec3F64> = Vec::new();
        let mut i: usize = 0;
        assert(screened@.take(0) =~= Seq::empty());
        while i < screened.len()
            invariant
                i <= screened@.len(),
                observed@ == corners_of(screened@.take(i as int)),
                expected@ == repeated(canonical@, i as nat),
            decreases screened@.len() - i,
        {
            let ghost observed0 = observed@;
            let ghost expected0 = expected@;
            let corners = screened[i].corners_map;
            let mut c: usize = 0;
            assert(observed0 + corners@.take(0) =~= observed0);
            assert(expected0 + canonical@.take(0) =~= expected0);
            while c < 4
                invariant
                    c <= 4,
                    observed@ == observed0 + corners@.take(c as int),
                    expected@ == expected0 + canonical@.take(c as int),
                decreases 4 - c,
            {
                observed.push(corners[c]);
                expected.push(canonical[c]);
                c += 1;
                assert(observed@ =~= observed0 + corners@.take(c as int));
                assert(expected@ =~= expected0 + canonical@.take(c as int));
            }
            assert(corners@.take(4) =~= corners@);
            assert(canonical@.take(4) =~= canonical@);
            assert(screened@.take(i + 1).drop_last() =~= screened@.take(i as int));
            i += 1;
        }
        assert(screened@.take(i as int) =~= screened@);
        let fitted = fit(&observed, &expected);
        assert(is_fit_of(screened@, *canonical, fit, fitted));
        Ok(fitted)
    }
}

/// A detection is acceptable where it is of the tag that is looked for, is no farther from its
/// code than allowed, and its margin is at least the smallest. The best one is the last of
/// those with the greatest margin.
pub proof fn lemma_best_detection_is_of_the_tag(
    config: AprilTagAnchorConfig,
    detections: Seq<TagDetection>,
    n: nat,
)
    requires
        n <= detections.len(),
        n <= usize::MAX,
        number(config.min_margin_bits) is Some,
    ensures
        best_detection(config, detections, n) matches Some(best) ==> {
            let found = detections[best as int];
            &&& found.id == config.tag_id
            &&& found.hamming <= config.max_hamming
            &&& number(found.margin_bits) is Some
            &&& number(found.margin_bits)->0 >= number(config.min_margin_bits)->0
        },
        best_detection(config, detections, n) is None ==> forall|i: int|
            0 <= i < n && (#[trigger] detections[i]).id == config.tag_id && detections[i].hamming
                <= config.max_hamming && number(detections[i].margin_bits) is Some ==> number(
                detections[i].margin_bits,
            )->0 < number(config.min_margin_bits)->0,
{
    lemma_best_detection(config, detections, n);
    if best_detection(config, detections, n) is None {
        assert forall|i: int|
            0 <= i < n && (#[trigger] detections[i]).id == config.tag_id && detections[i].hamming
                <= config.max_hamming && number(detections[i].margin_bits) is Some implies number(
            detections[i].margin_bits,
        )->0 < number(config.min_margin_bits)->0 by {
            assert(!is_acceptable(config, detections[i]));
        }
    }
}

/// A tag that was located in a keyframe is recorded last, with the corners where the pose of the
/// tag takes them into the camera frame and the inverse of the pose of the camera from there
/// into the map; earlier observations stay. Without a pose nothing is recorded.
pub proof fn lemma_recorded(
    before: Seq<TagObservation>,
    after: Seq<TagObservation>,
    kf_idx: usize,
    pose_world_to_cam: Pose3d,
    canonical: [Vec3F64; 4],
    tag_to_cam: Option<Pose3d>,
)
    requires
        is_recorded(before, after, kf_idx, pose_world_to_cam, canonical, tag_to_cam),
    ensures
        match tag_to_cam {
            None => after == before,
            Some(pose) => {
                &&& after.len() == before.len() + 1
                &&& forall|i: int| 0 <= i < before.len() ==> #[trigger] after[i] == before[i]
                &&& after.last().kf_idx == kf_idx
                &&& forall|c: int|
                    0 <= c < 4 ==> #[trigger] after.last().corners_map@[c] == transformed(
                        composed(inverse_pose(pose_world_to_cam), pose),
                        canonical@[c],
                    )
            },
        },
{
}

/// The keyframes of the observations are those that some observation is from.
pub proof fn lemma_keyframes_of(observations: Seq<TagObservation>)
    ensures
        keyframes_of(observations).finite(),
        forall|kf: usize| #[trigger]
            keyframes_of(observations).contains(kf) <==> exists|i: int|
                0 <= i < observations.len() && (#[trigger] observations[i]).kf_idx == kf,
    decreases observations.len(),
{
    if observations.len() > 0 {
        let head = observations.drop_last();
        lemma_keyframes_of(head);
        assert forall|kf: usize| #[trigger]
            keyframes_of(observations).contains(kf) <==> exists|i: int|
                0 <= i < observations.len() && (#[trigger] observations[i]).kf_idx == kf by {
            if keyframes_of(head).contains(kf) {
                let i = choose|i: int| 0 <= i < head.len() && (#[trigger] head[i]).kf_idx == kf;
                assert(observations[i].kf_idx == kf);
            }
            if observations.last().kf_idx == kf {
                assert(observations[observations.len() - 1].kf_idx == kf);
            }
            if exists|i: int| 0 <= i < observations.len() && (#[trigger] observations[i]).kf_idx == kf {
                let i = choose|i: int|
                    0 <= i < observations.len() && (#[trigger] observations[i]).kf_idx == kf;
                if i < head.len() {
                    assert(head[i].kf_idx == kf);
                }
            }
        }
    }
}

/// The corners of all observations come four by four, in order, and so do the canonical ones
/// that they are compared with.
pub proof fn lemma_corners(observations: Seq<TagObservation>, canonical: [Vec3F64; 4])
    ensures
        corners_of(observations).len() == 4 * observations.len(),
        repeated(canonical@, observations.len()).len() == 4 * observations.len(),
        forall|i: int, c: int|
            #![trigger observations[i].corners_map@[c]]
            0 <= i < observations.len() && 0 <= c < 4 ==> {
                &&& corners_of(observations)[4 * i + c] == observations[i].corners_map@[c]
                &&& repeated(canonical@, observations.len())[4 * i + c] == canonical@[c]
            },
    decreases observations.len(),
{
    if observations.len() > 0 {
        let head = observations.drop_last();
        lemma_corners(head, canonical);
        assert forall|i: int, c: int|
            #![trigger observations[i].corners_map@[c]]
            0 <= i < observations.len() && 0 <= c < 4 implies {
            &&& corners_of(observations)[4 * i + c] == observations[i].corners_map@[c]
            &&& repeated(canonical@, observations.len())[4 * i + c] == canonical@[c]
        } by {
            if i < head.len() {
                assert(head[i].corners_map@[c] == observations[i].corners_map@[c]);
            }
        }
    }
}

/// The anchor is fitted to the observations that are consistent, where these are from at least
/// two keyframes, and so are all observations; else the error tells from how many.
pub proof fn lemma_fit<A, K, F>(
    observations: Seq<TagObservation>,
    canonical: [Vec3F64; 4],
    is_consistent: K,
    fit: F,
    result: Result<A, AprilTagAnchorError>,
    truth: spec_fn(TagObservation) -> bool,
) where
    K: Fn(TagObservation) -> bool,
    F: Fn(&Vec<Vec3F64>, &Vec<Vec3F64>) -> A,

    requires
        is_fit(observations, canonical, is_consistent, fit, result),
        forall|item: TagObservation, said: bool|
            call_ensures(is_consistent, (item,), said) ==> said == truth(item),
        observations.len() <= usize::MAX,
    ensures
        ({
            let screened = observations.filter(truth);
            let n = keyframes_of(observations).len();
            let m = keyframes_of(screened).len();
            &&& n < 2 ==> result == Result::<A, _>::Err(
                AprilTagAnchorError::InsufficientObservations { keyframes: n as usize },
            )
            &&& n >= 2 && m < 2 ==> result == Result::<A, _>::Err(
                AprilTagAnchorError::InsufficientObservations { keyframes: m as usize },
            )
            &&& n >= 2 && m >= 2 ==> result is Ok && exists|
                observed: Vec<Vec3F64>,
                expected: Vec<Vec3F64>,
            |
                {
                    &&& observed@.len() == 4 * screened.len()
                    &&& expected@.len() == 4 * screened.len()
                    &&& forall|i: int, c: int|
                        #![trigger screened[i].corners_map@[c]]
                        0 <= i < screened.len() && 0 <= c < 4 ==> {
                            &&& observed@[4 * i + c] == screened[i].corners_map@[c]
                            &&& expected@[4 * i + c] == canonical@[c]
                        }
                    &&& #[trigger] call_ensures(fit, (&observed, &expected), result->Ok_0)
                }
        }),
{
    if keyframes_of(observations).len() >= 2 {
        let screened = choose|screened: Seq<TagObservation>|
            {
                &&& #[trigger] selects(is_consistent, observations, screened)
                &&& if keyframes_of(screened).len() < MIN_KEYFRAMES {
                    result == Result::<A, _>::Err(
                        AprilTagAnchorError::InsufficientObservations {
                            keyframes: keyframes_of(screened).len() as usize,
                        },
                    )
                } else {
                    result is Ok && is_fit_of(screened, canonical, fit, result->Ok_0)
                }
            };
        crate::selection::lemma_selects_exactly(is_consistent, truth, observations, screened);
        lemma_corners(screened, canonical);
    }
}

/// Of the tags found in a keyframe at most one is recorded: the best detection, at the pose that
/// fifty iterations give for a tag of the size that is configured. Where none was found, or
/// none is acceptable, nothing is recorded.
pub proof fn lemma_ingested(
    config: AprilTagAnchorConfig,
    before: Seq<TagObservation>,
    after: Seq<TagObservation>,
    kf_idx: usize,
    pose_world_to_cam: Pose3d,
    camera: PinholeCamera,
    canonical: [Vec3F64; 4],
    found: Option<Seq<Detection>>,
)
    requires
        is_ingested(
            config,
            before,
            after,
            kf_idx,
            pose_world_to_cam,
            camera,
            canonical,
            found,
        ),
        found is Some ==> found->0.len() <= usize::MAX,
    ensures
        found is None ==> after == before,
        after == before || exists|best: int, pose: Pose3d|
            {
                let tag = reading(found->0[best]);
                &&& found is Some
                &&& 0 <= best < found->0.len()
                &&& tag.id == config.tag_id
                &&& tag.hamming <= config.max_hamming
                &&& at_least(number(tag.margin_bits), number(config.min_margin_bits))
                &&& #[trigger] may_locate(
                    found->0[best],
                    camera,
                    config.tag_size,
                    50,
                    Some(pose),
                )
                &&& after.len() == before.len() + 1
                &&& after.last().kf_idx == kf_idx
                &&& forall|c: int|
                    0 <= c < 4 ==> #[trigger] after.last().corners_map@[c] == transformed(
                        composed(inverse_pose(pose_world_to_cam), pose),
                        canonical@[c],
                    )
            },
{
    if found is Some {
        let detections = found->0;
        lemma_best_detection(config, readings(detections), detections.len());
        let best = best_detection(config, readings(detections), detections.len());
        if best is Some {
            let pose = choose|pose: Option<Pose3d>|
                {
                    &&& #[trigger] may_locate(
                        detections[best->0 as int],
                        camera,
                        config.tag_size,
                        POSE_ITERATIONS,
                        pose,
                    )
                    &&& is_recorded(before, after, kf_idx, pose_world_to_cam, canonical, pose)
                };
            if pose is Some {
                assert(pose == Some(pose->0));
                assert(readings(detections)[best->0 as int] == reading(
                    detections[best->0 as int],
                ));
                assert(may_locate(
                    detections[best->0 as int],
                    camera,
                    config.tag_size,
                    50,
                    Some(pose->0),
                ));
            }
        }
    }
}

/// An anchor decodes with the decoder that it has; without one, with that for its tag family and
/// for images as wide and as high as the one at hand.
pub proof fn lemma_decoder_for(anchor: AprilTagAnchor, image: GrayImage<'_>)
    ensures
        anchor.spec_decoder() is Some ==> anchor.decoder_for(image) == anchor.spec_decoder(),
        anchor.spec_decoder() is None ==> anchor.decoder_for(image) == fresh_decoder(
            anchor.spec_config().family,
            image.width,
            image.height,
        ),
{
}

} // verus!
