//! The outside geometry types, and the calls into them that the library makes.

use crate::double::{at_least, number};
use kornia_3d::camera::PinholeCamera;
use kornia_3d::pose::Pose3d;
use kornia_algebra::{Vec2F32, Vec3F64};
use kornia_image::ImageSize;
use vstd::prelude::*;

verus! {

/// `kornia_3d::pose::Pose3d`: a rigid transform.
#[verifier::external_type_specification]
#[verifier::external_body]
pub struct ExPose3d(kornia_3d::pose::Pose3d);

/// `kornia_algebra::Vec3F64`: a point or a vector in space.
#[verifier::external_type_specification]
#[verifier::external_body]
pub struct ExVec3F64(kornia_algebra::Vec3F64);

/// `kornia_algebra::Vec2F32`: a pixel position, carried through unread.
#[verifier::external_type_specification]
#[verifier::external_body]
pub struct ExVec2F32(kornia_algebra::Vec2F32);

/// `kornia_3d::camera::PinholeCamera`: camera intrinsics, carried through unread.
#[verifier::external_type_specification]
#[verifier::external_body]
pub struct ExPinholeCamera(kornia_3d::camera::PinholeCamera);

/// The pose that `Pose3d::inverse` returns for `pose`.
pub uninterp spec fn inverse_pose(pose: Pose3d) -> Pose3d;

/// The pose that `Pose3d::compose` returns for `outer` and `inner`.
pub uninterp spec fn composed(outer: Pose3d, inner: Pose3d) -> Pose3d;

/// The pose that `Pose3d::between` returns for `from` and `to`.
pub uninterp spec fn relative_pose(from: Pose3d, to: Pose3d) -> Pose3d;

/// The point that `Pose3d::transform_point` returns for `pose` and `point`.
pub uninterp spec fn transformed(pose: Pose3d, point: Vec3F64) -> Vec3F64;

/// The pixel that `PinholeCamera::project_to_image` returns, in single precision, for a point
/// in the camera frame; `None` where the point is no deeper than `nearest`, or than the
/// camera itself without one, or outside the image.
pub uninterp spec fn projected(
    camera: PinholeCamera,
    point: Vec3F64,
    nearest: Option<Vec3F64>,
    image_size: ImageSize,
) -> Option<Vec2F32>;

/// The z-coordinate of a point, as an integer that orders as it does; `None` where it is not a
/// number.
pub uninterp spec fn depth_of(point: Vec3F64) -> Option<int>;

/// The vector that `Vec3F64::div` returns for a point and the z-coordinate of another.
pub uninterp spec fn divided(point: Vec3F64, by: Vec3F64) -> Vec3F64;

/// The pose with its translation divided by the z-coordinate of a point.
pub uninterp spec fn shortened(pose: Pose3d, by: Vec3F64) -> Pose3d;

/// The translation of a pose.
pub uninterp spec fn translation_of(pose: Pose3d) -> Vec3F64;

/// The length that `Vec3F64::length` returns, as an integer that orders as it does; `None`
/// where it is not a number.
pub uninterp spec fn length_of(v: Vec3F64) -> Option<int>;

/// The vector that `Vec3F64::sub` returns for two vectors.
pub uninterp spec fn vector_difference(a: Vec3F64, b: Vec3F64) -> Vec3F64;

/// The vector that `Vec3F64::add` returns for two vectors.
pub uninterp spec fn vector_sum(a: Vec3F64, b: Vec3F64) -> Vec3F64;

/// The vector that `Vec2F32::sub` returns for two pixels.
pub uninterp spec fn difference(a: Vec2F32, b: Vec2F32) -> Vec2F32;

/// The vector that `Vec2F32::add` returns for a vector and itself.
pub uninterp spec fn doubled(v: Vec2F32) -> Vec2F32;

/// The number that `Vec2F32::dot` returns for a vector and itself, as an integer that orders
/// as it does; `None` where it is not a number.
pub uninterp spec fn squared_length(v: Vec2F32) -> Option<int>;

/// The vector along the x-axis that is so many pixels long.
pub uninterp spec fn pixel_radius(pixels: u16) -> Vec2F32;

/// The x-coordinate of a pixel, as an integer that orders as it does; `None` where it is not a
/// number.
pub uninterp spec fn x_of(pixel: Vec2F32) -> Option<int>;

/// The y-coordinate of a pixel, as an integer that orders as it does; `None` where it is not a
/// number.
pub uninterp spec fn y_of(pixel: Vec2F32) -> Option<int>;

/// The length that `Vec2F32::length` returns, as an integer that orders as it does; `None`
/// where it is not a number.
pub uninterp spec fn pixel_length(v: Vec2F32) -> Option<int>;

/// The pixel that is so many columns and rows from the origin.
pub uninterp spec fn image_corner(width: usize, height: usize) -> Vec2F32;

/// The keypoint is no farther from the pixel than the radius is long.
pub open spec fn is_within(keypoint: Vec2F32, pixel: Vec2F32, radius: Vec2F32) -> bool {
    at_least(squared_length(radius), squared_length(difference(keypoint, pixel)))
}

/// `Pose3d::inverse`: the inverse transform, a function of the pose alone.
#[verifier::external_body]
pub(crate) fn invert(pose: &Pose3d) -> (inverse: Pose3d)
    ensures
        inverse == inverse_pose(*pose),
{
    pose.inverse()
}

/// `Pose3d::compose`: the transform that applies `inner` first and then `outer`, a function
/// of the two poses. Its translation is what `outer` makes of that of `inner`: rotated, then
/// moved.
#[verifier::external_body]
pub(crate) fn compose(outer: &Pose3d, inner: &Pose3d) -> (both: Pose3d)
    ensures
        both == composed(*outer, *inner),
        translation_of(both) == transformed(*outer, translation_of(*inner)),
{
    outer.compose(inner)
}

/// `Pose3d::between`: the transform from one camera frame to another, a function of the
/// two poses: the inverse of `from` first, and then `to`.
#[verifier::external_body]
pub(crate) fn relate(from: &Pose3d, to: &Pose3d) -> (relative: Pose3d)
    ensures
        relative == relative_pose(*from, *to),
        relative == composed(*to, inverse_pose(*from)),
{
    Pose3d::between(from, to)
}

/// `Pose3d::transform_point`: the image of a point, a function of the pose and the point.
#[verifier::external_body]
pub(crate) fn transform(pose: &Pose3d, point: &Vec3F64) -> (image: Vec3F64)
    ensures
        image == transformed(*pose, *point),
{
    pose.transform_point(point)
}

/// `PinholeCamera::project_to_image` with the depth of `nearest` as the least depth, zero
/// without one: it succeeds exactly when the point is deeper and its pixel is within the
/// image. The pixel is a function of the camera, the point, the least depth and the image
/// size, brought to single precision.
#[verifier::external_body]
pub(crate) fn project(
    camera: &PinholeCamera,
    point: &Vec3F64,
    nearest: Option<Vec3F64>,
    image_size: ImageSize,
) -> (pixel: Option<Vec2F32>)
    ensures
        pixel == projected(*camera, *point, nearest, image_size),
{
    let least = nearest.unwrap_or_default().z;
    let found = camera.project_to_image(point, least, image_size);
    found.ok().map(|pixel| Vec2F32::new(pixel.x as _, pixel.y as _))
}

/// The field `Vec3F64::z`, by its bits.
#[verifier::external_body]
pub(crate) fn depth_bits(point: &Vec3F64) -> (bits: u64)
    ensures
        number(bits) == depth_of(*point),
{
    point.z.to_bits()
}

/// `Vec3F64::div`: a point divided by the z-coordinate of another, a function of the two.
#[verifier::external_body]
pub(crate) fn divide(point: &Vec3F64, by: &Vec3F64) -> (quotient: Vec3F64)
    ensures
        quotient == divided(*point, *by),
{
    *point / by.z
}

/// `Vec3F64::div` on the translation of a pose: the same rotation, and the translation divided
/// by the z-coordinate of a point. It is a function of the pose and the point.
#[verifier::external_body]
pub(crate) fn shorten(pose: &Pose3d, by: &Vec3F64) -> (short: Pose3d)
    ensures
        short == shortened(*pose, *by),
        translation_of(short) == divided(translation_of(*pose), *by),
{
    Pose3d::new(pose.rotation, pose.translation / by.z)
}

/// The field `Pose3d::translation`.
#[verifier::external_body]
pub(crate) fn translation(pose: &Pose3d) -> (t: Vec3F64)
    ensures
        t == translation_of(*pose),
{
    pose.translation
}

/// `Vec3F64::length`, by its bits. It is a function of the vector.
#[verifier::external_body]
pub(crate) fn length_bits(v: &Vec3F64) -> (bits: u64)
    ensures
        number(bits) == length_of(*v),
{
    v.length().to_bits()
}

/// `Vec3F64::sub`: the difference of two vectors, a function of the two.
#[verifier::external_body]
pub(crate) fn subtract_vectors(a: &Vec3F64, b: &Vec3F64) -> (v: Vec3F64)
    ensures
        v == vector_difference(*a, *b),
{
    *a - *b
}

/// `Vec3F64::add`: the sum of two vectors, a function of the two.
#[verifier::external_body]
pub(crate) fn add_vectors(a: &Vec3F64, b: &Vec3F64) -> (v: Vec3F64)
    ensures
        v == vector_sum(*a, *b),
{
    *a + *b
}

/// `Vec2F32::sub`: the difference of two pixels, a function of the two.
#[verifier::external_body]
pub(crate) fn subtract(a: &Vec2F32, b: &Vec2F32) -> (v: Vec2F32)
    ensures
        v == difference(*a, *b),
{
    *a - *b
}

/// `Vec2F32::add` of a vector and itself: a vector twice as long, a function of the vector.
#[verifier::external_body]
pub(crate) fn twice(v: &Vec2F32) -> (long: Vec2F32)
    ensures
        long == doubled(*v),
{
    *v + *v
}

/// `Vec2F32::dot` of a vector and itself, by its bits: the squared length, a function of the
/// vector.
#[verifier::external_body]
pub(crate) fn squared_bits(v: &Vec2F32) -> (bits: u32)
    ensures
        crate::single::number(bits) == squared_length(*v),
{
    v.dot(*v).to_bits()
}

/// The field `Vec2F32::x`, by its bits.
#[verifier::external_body]
pub(crate) fn x_bits(pixel: &Vec2F32) -> (bits: u32)
    ensures
        crate::single::number(bits) == x_of(*pixel),
{
    pixel.x.to_bits()
}

/// The field `Vec2F32::y`, by its bits.
#[verifier::external_body]
pub(crate) fn y_bits(pixel: &Vec2F32) -> (bits: u32)
    ensures
        crate::single::number(bits) == y_of(*pixel),
{
    pixel.y.to_bits()
}

/// `Vec2F32::length`, by its bits. It is a function of the vector.
#[verifier::external_body]
pub(crate) fn pixel_length_bits(v: &Vec2F32) -> (bits: u32)
    ensures
        crate::single::number(bits) == pixel_length(*v),
{
    v.length().to_bits()
}

/// `Vec2F32::new`: the pixel that is a number of columns and rows from the origin, each brought
/// to single precision.
#[verifier::external_body]
pub(crate) fn corner_of(width: usize, height: usize) -> (corner: Vec2F32)
    ensures
        corner == image_corner(width, height),
{
    Vec2F32::new(width as _, height as _)
}

/// `Vec2F32::new`: a vector along the x-axis, as long as a number of pixels.
#[verifier::external_body]
pub(crate) fn radius_of(pixels: u16) -> (radius: Vec2F32)
    ensures
        radius == pixel_radius(pixels),
{
    Vec2F32::new(pixels.into(), Default::default())
}

/// Whether a keypoint is no farther from a pixel than a radius is long.
pub(crate) fn lies_within(keypoint: &Vec2F32, pixel: &Vec2F32, radius: &Vec2F32) -> (within: bool)
    ensures
        within == is_within(*keypoint, *pixel, *radius),
{
    let v = subtract(keypoint, pixel);
    crate::single::is_at_least(squared_bits(radius), squared_bits(&v))
}

} // verus!
