//! Frames: features extracted from an image at a known pose.

use kornia_3d::camera::PinholeCamera;
use kornia_3d::pose::Pose3d;
use kornia_algebra::Vec2F32;
use kornia_image::ImageSize;
use kornia_imgproc::features::OrbFeatures;
use vstd::prelude::*;

verus! {

/// `kornia_imgproc::features::OrbFeatures`: the features of one image.
#[verifier::external_type_specification]
#[verifier::external_body]
pub struct ExOrbFeatures(kornia_imgproc::features::OrbFeatures);

/// `kornia_image::ImageSize`: image dimensions, carried through unread.
#[verifier::external_type_specification]
#[verifier::external_body]
pub struct ExImageSize(kornia_image::ImageSize);

/// The descriptors that a feature set holds, in order.
pub uninterp spec fn descriptors_of(features: OrbFeatures) -> Seq<[u8; 32]>;

/// The pyramid levels that a feature set holds, in order.
pub uninterp spec fn octaves_of(features: OrbFeatures) -> Seq<u8>;

/// The keypoint angles that a feature set holds, in radians, each as the bits of its
/// single-precision representation.
pub uninterp spec fn orientation_bits(features: OrbFeatures) -> Seq<u32>;

/// How many keypoint positions a feature set holds.
pub uninterp spec fn keypoint_count(features: OrbFeatures) -> nat;

/// The x-coordinates of the keypoints that a feature set holds, each as the bits of its
/// single-precision representation.
pub uninterp spec fn column_bits(features: OrbFeatures) -> Seq<u32>;

/// The pixel that `PinholeCamera::undistort` returns for a keypoint, in single precision.
pub uninterp spec fn undistorted_keypoint(
    camera: PinholeCamera,
    features: OrbFeatures,
    i: int,
) -> Vec2F32;

/// The undistorted keypoints of a feature set.
pub open spec fn undistorted(camera: PinholeCamera, features: OrbFeatures) -> Seq<Vec2F32> {
    Seq::new(keypoint_count(features), |i: int| undistorted_keypoint(camera, features, i))
}

/// The field `OrbFeatures::descriptors`.
#[verifier::external_body]
pub(crate) fn descriptors(features: &OrbFeatures) -> (held: &Vec<[u8; 32]>)
    ensures
        held@ == descriptors_of(*features),
{
    &features.descriptors
}

/// The field `OrbFeatures::octaves`.
#[verifier::external_body]
pub(crate) fn octaves(features: &OrbFeatures) -> (held: &Vec<u8>)
    ensures
        held@ == octaves_of(*features),
{
    &features.octaves
}

/// The length of the field `OrbFeatures::keypoints_xy`.
#[verifier::external_body]
pub(crate) fn count_keypoints(features: &OrbFeatures) -> (count: usize)
    ensures
        count == keypoint_count(*features),
{
    features.keypoints_xy.len()
}

/// The field `OrbFeatures::orientations`, each angle as its bits.
#[verifier::external_body]
pub(crate) fn orientations(features: &OrbFeatures) -> (bits: Vec<u32>)
    ensures
        bits@ == orientation_bits(*features),
{
    features.orientations.iter().map(|angle| angle.to_bits()).collect()
}

/// The x-coordinates of the field `OrbFeatures::keypoints_xy`, each as its bits.
#[verifier::external_body]
pub(crate) fn columns(features: &OrbFeatures) -> (bits: Vec<u32>)
    ensures
        bits@ == column_bits(*features),
        bits@.len() == keypoint_count(*features),
{
    features.keypoints_xy.iter().map(|keypoint| keypoint[0].to_bits()).collect()
}

/// `PinholeCamera::undistort`: the undistorted pixel of a keypoint, a function of the camera
/// and the keypoint, brought to single precision.
#[verifier::external_body]
pub(crate) fn undistort_keypoint(camera: &PinholeCamera, features: &OrbFeatures, i: usize) -> (pixel:
    Vec2F32)
    requires
        i < keypoint_count(*features),
    ensures
        pixel == undistorted_keypoint(*camera, *features, i as int),
{
    let keypoint = features.keypoints_xy[i];
    let pixel = camera.undistort(keypoint[0].into(), keypoint[1].into());
    Vec2F32::new(pixel.x as _, pixel.y as _)
}

/// Undistorts the keypoints of a feature set.
pub fn undistort_keypoints(camera: &PinholeCamera, features: &OrbFeatures) -> (pixels: Vec<Vec2F32>)
    ensures
        pixels@ == undistorted(*camera, *features),
{
    let n: usize = count_keypoints(features);
    let mut pixels: Vec<Vec2F32> = Vec::new();
    let mut i: usize = 0;
    while i < n
        invariant
            i <= n,
            n == keypoint_count(*features),
            pixels@ == undistorted(*camera, *features).take(i as int),
        decreases n - i,
    {
        pixels.push(undistort_keypoint(camera, features, i));
        i += 1;
        assert(pixels@ =~= undistorted(*camera, *features).take(i as int));
    }
    assert(pixels@ =~= undistorted(*camera, *features));
    pixels
}

/// `OrbFeatures::clone`: the copy holds the same values in every field.
#[verifier::external_body]
pub(crate) fn copy_features(features: &OrbFeatures) -> (copy: OrbFeatures)
    ensures
        copy == *features,
{
    features.clone()
}

/// A copy of a vector of plain values.
pub(crate) fn copy_vec<T: Copy>(items: &Vec<T>) -> (copy: Vec<T>)
    ensures
        copy@ == items@,
{
    let mut copy: Vec<T> = Vec::new();
    let mut i: usize = 0;
    while i < items.len()
        invariant
            i <= items@.len(),
            copy@ == items@.take(i as int),
        decreases items@.len() - i,
    {
        copy.push(items[i]);
        i += 1;
        assert(copy@ =~= items@.take(i as int));
    }
    assert(items@.take(i as int) =~= items@);
    copy
}

/// A camera observation: features extracted at a known pose.
#[derive(Debug)]
pub struct Frame {
    /// Frame index.
    pub idx: usize,
    /// Features extracted for this frame.
    pub features: OrbFeatures,
    /// Camera pose in world-to-camera convention.
    pub pose_world_to_cam: Pose3d,
    /// Image dimensions.
    pub image_size: ImageSize,
    /// Pixel color sampled at each keypoint location.
    pub keypoint_colors: Vec<[u8; 3]>,
    /// Stereo match per left keypoint: the x-coordinate in the right image and the
    /// metric depth; `None` where there is no match. Parallel to the keypoints of
    /// `features`. Empty when the frame is monocular.
    pub stereo: Vec<Option<Vec2F32>>,
}

/// The two frames agree in every field.
pub open spec fn same_frame(a: Frame, b: Frame) -> bool {
    &&& a.idx == b.idx
    &&& a.features == b.features
    &&& a.pose_world_to_cam == b.pose_world_to_cam
    &&& a.image_size == b.image_size
    &&& a.keypoint_colors@ == b.keypoint_colors@
    &&& a.stereo@ == b.stereo@
}

impl Clone for Frame {
    fn clone(&self) -> (copy: Frame)
        ensures
            same_frame(copy, *self),
    {
        Frame {
            idx: self.idx,
            features: copy_features(&self.features),
            pose_world_to_cam: self.pose_world_to_cam,
            image_size: self.image_size,
            keypoint_colors: copy_vec(&self.keypoint_colors),
            stereo: copy_vec(&self.stereo),
        }
    }
}

impl Frame {
    /// A monocular frame.
    pub fn new(idx: usize, features: OrbFeatures, pose_world_to_cam: Pose3d, image_size: ImageSize) -> (frame: Frame)
        ensures
            frame.idx == idx,
            frame.features == features,
            frame.pose_world_to_cam == pose_world_to_cam,
            frame.image_size == image_size,
            frame.keypoint_colors@.len() == 0,
            frame.stereo@.len() == 0,
    {
        Frame {
            idx,
            features,
            pose_world_to_cam,
            image_size,
            keypoint_colors: Vec::new(),
            stereo: Vec::new(),
        }
    }

    /// Whether this frame carries per-keypoint stereo depth.
    pub fn is_stereo(&self) -> (stereo: bool)
        ensures
            stereo == (self.stereo@.len() > 0),
    {
        !self.stereo.is_empty()
    }

    /// Right-image x-coordinate and metric depth of keypoint `i`, if it has a stereo match.
    pub fn stereo_depth(&self, i: usize) -> (found: Option<Vec2F32>)
        ensures
            found == (if i < self.stereo@.len() {
                self.stereo@[i as int]
            } else {
                None
            }),
    {
        if i < self.stereo.len() {
            self.stereo[i]
        } else {
            None
        }
    }
}

/// Frames that agree do so in their index, their features, their pose, their image size, and for
/// each keypoint in its color and its stereo match.
pub proof fn lemma_same_frame(a: Frame, b: Frame)
    requires
        same_frame(a, b),
    ensures
        a.idx == b.idx,
        a.features == b.features,
        a.pose_world_to_cam == b.pose_world_to_cam,
        a.image_size == b.image_size,
        a.keypoint_colors@ == b.keypoint_colors@,
        a.stereo@ == b.stereo@,
        same_frame(b, a),
{
}

/// There is an undistorted keypoint for each keypoint, in the same order.
pub proof fn lemma_undistorted(camera: PinholeCamera, features: OrbFeatures)
    ensures
        undistorted(camera, features).len() == keypoint_count(features),
        forall|i: int|
            0 <= i < keypoint_count(features) ==> #[trigger] undistorted(camera, features)[i]
                == undistorted_keypoint(camera, features, i),
{
}

} // verus!
