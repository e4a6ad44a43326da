//! Vectors, quaternions and matrices.
//!
//! The numbers of the world are single-precision values of `nalgebra`. The
//! library never looks inside them: it carries them, and every arithmetic
//! step is a call into `nalgebra_glm` (or, for taking a matrix apart,
//! `glam`). Each such call stands behind a small wrapper whose contract is
//! believed rather than proved. A contract of that kind does not say what
//! the numbers are. It records, with a predicate that has no definition,
//! that the value came out of that call on those arguments, so that the
//! contracts of the library can say exactly which calls were composed, in
//! which order, on which arguments. Nothing is assumed about rounding, and
//! nothing about two calls on equal arguments giving equal results. Only
//! where a call merely copies numbers (a vector built from its components,
//! the components read off a vector) is its result named as a function of
//! its arguments.

use vstd::prelude::*;
use vstd::float::FloatBitsProperties;

verus! {

/// Declares `nalgebra::Matrix`, so that vectors and matrices can stand in
/// fields and signatures. Nothing is known of what a value holds.
#[verifier::external_type_specification]
#[verifier::external_body]
#[verifier::reject_recursive_types(T)]
#[verifier::reject_recursive_types(R)]
#[verifier::reject_recursive_types(C)]
#[verifier::reject_recursive_types(S)]
pub struct ExMatrix<T, R, C, S>(nalgebra::Matrix<T, R, C, S>);

/// Declares `nalgebra::Const`, the type-level dimension of a vector or
/// matrix.
#[verifier::external_type_specification]
#[verifier::external_body]
pub struct ExConst<const N: usize>(nalgebra::Const<N>);

/// Declares `nalgebra::ArrayStorage`, the storage of a vector or matrix of
/// fixed size.
#[verifier::external_type_specification]
#[verifier::external_body]
#[verifier::reject_recursive_types(T)]
pub struct ExArrayStorage<T, const R: usize, const C: usize>(nalgebra::ArrayStorage<T, R, C>);

/// Declares `nalgebra::Quaternion`. Nothing is known of what a value holds.
#[verifier::external_type_specification]
#[verifier::external_body]
#[verifier::reject_recursive_types(T)]
pub struct ExQuaternion<T>(nalgebra::Quaternion<T>);

/// A single-precision number, under the name the simulation gives it.
pub type Scalar = rapier3d::math::Real;

/// A vector of two numbers.
pub type Vec2 = nalgebra_glm::Vec2;

/// A vector of three numbers.
pub type Vec3 = nalgebra_glm::Vec3;

/// A vector of four numbers.
pub type Vec4 = nalgebra_glm::Vec4;

/// A quaternion.
pub type Quat = nalgebra_glm::Quat;

/// A matrix of four rows and four columns, stored by columns.
pub type Mat4 = nalgebra_glm::Mat4;

/// Holds where `m` is a matrix that `nalgebra_glm::translation` returned
/// for the offset.
pub uninterp spec fn is_translation_of(offset: Vec3, m: Mat4) -> bool;

/// Holds where `m` is a matrix that `nalgebra_glm::quat_to_mat4` returned
/// for the quaternion.
pub uninterp spec fn is_rotation_of(rotation: Quat, m: Mat4) -> bool;

/// Holds where `m` is a matrix that `nalgebra_glm::scaling` returned for
/// the per-axis factors.
pub uninterp spec fn is_scaling_of(factors: Vec3, m: Mat4) -> bool;

/// Holds where `m` is a matrix that `nalgebra`'s `*` returned for `a * b`.
pub uninterp spec fn is_product_of(a: Mat4, b: Mat4, m: Mat4) -> bool;

/// Holds where `parts` are translation, rotation and scale as `glam`'s
/// `Mat4::to_scale_rotation_translation` returned them for the matrix.
pub uninterp spec fn is_decomposition_of(m: Mat4, parts: (Vec3, Quat, Vec3)) -> bool;

/// Calls `nalgebra_glm::translation`. The contract only records the call.
#[verifier::external_body]
pub(crate) fn mat4_translation(offset: &Vec3) -> (m: Mat4)
    ensures
        is_translation_of(*offset, m),
{
    nalgebra_glm::translation(offset)
}

/// Calls `nalgebra_glm::quat_to_mat4`. The contract only records the call.
#[verifier::external_body]
pub(crate) fn mat4_rotation(rotation: &Quat) -> (m: Mat4)
    ensures
        is_rotation_of(*rotation, m),
{
    nalgebra_glm::quat_to_mat4(rotation)
}

/// Calls `nalgebra_glm::scaling`. The contract only records the call.
#[verifier::external_body]
pub(crate) fn mat4_scaling(factors: &Vec3) -> (m: Mat4)
    ensures
        is_scaling_of(*factors, m),
{
    nalgebra_glm::scaling(factors)
}

/// Multiplies two matrices with `nalgebra`'s `*`. The contract only records
/// the call.
#[verifier::external_body]
pub(crate) fn mat4_mul(a: &Mat4, b: &Mat4) -> (m: Mat4)
    ensures
        is_product_of(*a, *b, m),
{
    a * b
}

/// Calls `glam`'s `Mat4::to_scale_rotation_translation` on the same sixteen
/// numbers and hands the three parts back as translation, rotation, scale.
/// The contract only records the call.
#[verifier::external_body]
pub(crate) fn mat4_decompose(m: &Mat4) -> (parts: (Vec3, Quat, Vec3))
    ensures
        is_decomposition_of(*m, parts),
{
    let (s, r, t) = rapier3d::glamx::Mat4::from_cols_slice(m.as_slice())
        .to_scale_rotation_translation();
    (
        nalgebra_glm::vec3(t.x, t.y, t.z),
        nalgebra_glm::quat(r.x, r.y, r.z, r.w),
        nalgebra_glm::vec3(s.x, s.y, s.z),
    )
}

/// Holds where `inverse` is a matrix that `nalgebra_glm::inverse` returned
/// for `m`.
pub uninterp spec fn is_inverse_of(m: Mat4, inverse: Mat4) -> bool;

/// Holds where `m` is a matrix that `glam`'s right-handed perspective
/// projection with depth from zero to one returned for a vertical field of
/// view, an aspect ratio and two clip planes.
pub uninterp spec fn is_perspective_of(
    aspect: Scalar,
    y_fov: Scalar,
    near: Scalar,
    far: Scalar,
    m: Mat4,
) -> bool;

/// Holds where `m` is a matrix that `nalgebra_glm::infinite_perspective_rh_zo`
/// returned for an aspect ratio, a vertical field of view and a near plane.
pub uninterp spec fn is_infinite_perspective_of(
    aspect: Scalar,
    y_fov: Scalar,
    near: Scalar,
    m: Mat4,
) -> bool;

/// Holds where `m` is a matrix that `nalgebra_glm::ortho` returned for the
/// six planes `(left, right, bottom, top, near, far)`.
pub uninterp spec fn is_orthographic_of(
    planes: (Scalar, Scalar, Scalar, Scalar, Scalar, Scalar),
    m: Mat4,
) -> bool;

/// Holds where `p` is a point that `nalgebra_glm::unproject_no` returned for
/// a window point, a view matrix, a projection matrix and a viewport.
pub uninterp spec fn is_unprojection_of(
    window: Vec3,
    view: Mat4,
    projection: Mat4,
    viewport: Vec4,
    p: Vec3,
) -> bool;

/// Holds where `d` is a vector that `nalgebra`'s `-` returned for `a - b`.
pub uninterp spec fn is_difference_of(a: Vec3, b: Vec3, d: Vec3) -> bool;

/// Holds where `n` is a vector that `nalgebra_glm::normalize` returned for
/// `v`.
pub uninterp spec fn is_normalized_of(v: Vec3, n: Vec3) -> bool;

/// Holds where `scaled` is what `component_mul` returned for a position and
/// per-axis factors.
pub uninterp spec fn is_scaled_by(position: Vec3, factors: Vec3, scaled: Vec3) -> bool;

/// Holds where `d` is a number that `-` returned for `a - b`.
pub uninterp spec fn is_scalar_difference_of(a: Scalar, b: Scalar, d: Scalar) -> bool;

/// Holds where `q` is a number that `/` returned for `a / b`.
pub uninterp spec fn is_scalar_quotient_of(a: Scalar, b: Scalar, q: Scalar) -> bool;

/// The vector with the given three components.
pub uninterp spec fn vec3_of(x: Scalar, y: Scalar, z: Scalar) -> Vec3;

/// The vector with the given four components.
pub uninterp spec fn vec4_of(x: Scalar, y: Scalar, z: Scalar, w: Scalar) -> Vec4;

/// The two components of a vector.
pub uninterp spec fn vec2_parts(v: Vec2) -> (Scalar, Scalar);

/// Calls `nalgebra_glm::inverse`, which gives the zero matrix where there
/// is no inverse. The contract only records the call.
#[verifier::external_body]
pub(crate) fn mat4_inverse(m: &Mat4) -> (inverse: Mat4)
    ensures
        is_inverse_of(*m, inverse),
{
    nalgebra_glm::inverse(m)
}

/// Calls `glam`'s `camera::rh::proj::directx::perspective` and copies the
/// sixteen numbers, column by column. As `glam` is built here the call
/// checks nothing and never fails. The contract only records the call.
#[verifier::external_body]
pub(crate) fn mat4_perspective(aspect: Scalar, y_fov: Scalar, near: Scalar, far: Scalar) -> (m:
    Mat4)
    ensures
        is_perspective_of(aspect, y_fov, near, far, m),
{
    let built = rapier3d::glamx::glam::camera::rh::proj::directx::perspective(
        y_fov,
        aspect,
        near,
        far,
    );
    nalgebra_glm::make_mat4(&built.to_cols_array())
}

/// Calls `nalgebra_glm::infinite_perspective_rh_zo`. The contract only
/// records the call.
#[verifier::external_body]
pub(crate) fn mat4_infinite_perspective(aspect: Scalar, y_fov: Scalar, near: Scalar) -> (m: Mat4)
    ensures
        is_infinite_perspective_of(aspect, y_fov, near, m),
{
    nalgebra_glm::infinite_perspective_rh_zo(aspect, y_fov, near)
}

/// Calls `nalgebra_glm::ortho`. The contract only records the call.
#[verifier::external_body]
pub(crate) fn mat4_orthographic(planes: (Scalar, Scalar, Scalar, Scalar, Scalar, Scalar)) -> (m:
    Mat4)
    ensures
        is_orthographic_of(planes, m),
{
    nalgebra_glm::ortho(planes.0, planes.1, planes.2, planes.3, planes.4, planes.5)
}

/// Calls `nalgebra_glm::unproject_no`. The contract only records the call.
#[verifier::external_body]
pub(crate) fn vec3_unproject(window: &Vec3, view: &Mat4, projection: &Mat4, viewport: &Vec4) -> (p:
    Vec3)
    ensures
        is_unprojection_of(*window, *view, *projection, *viewport, p),
{
    nalgebra_glm::unproject_no(window, view, projection, *viewport)
}

/// Subtracts two vectors with `nalgebra`'s `-`. The contract only records
/// the call.
#[verifier::external_body]
pub(crate) fn vec3_sub(a: &Vec3, b: &Vec3) -> (d: Vec3)
    ensures
        is_difference_of(*a, *b, d),
{
    a - b
}

/// Calls `nalgebra_glm::normalize`. The contract only records the call.
#[verifier::external_body]
pub(crate) fn vec3_normalize(v: &Vec3) -> (n: Vec3)
    ensures
        is_normalized_of(*v, n),
{
    nalgebra_glm::normalize(v)
}

/// Calls `nalgebra_glm::vec3`, which stores the three numbers as they are.
#[verifier::external_body]
pub(crate) fn vec3_new(x: Scalar, y: Scalar, z: Scalar) -> (v: Vec3)
    ensures
        v == vec3_of(x, y, z),
{
    nalgebra_glm::vec3(x, y, z)
}

/// Calls `nalgebra_glm::vec4`, which stores the four numbers as they are.
#[verifier::external_body]
pub(crate) fn vec4_new(x: Scalar, y: Scalar, z: Scalar, w: Scalar) -> (v: Vec4)
    ensures
        v == vec4_of(x, y, z, w),
{
    nalgebra_glm::vec4(x, y, z, w)
}

/// Reads the two components of a vector.
#[verifier::external_body]
pub(crate) fn vec2_read(v: &Vec2) -> (parts: (Scalar, Scalar))
    ensures
        parts == vec2_parts(*v),
{
    (v.x, v.y)
}

/// Calls `component_mul` of `nalgebra`. The contract only records the call.
#[verifier::external_body]
pub(crate) fn vec3_scale(position: &Vec3, factors: &Vec3) -> (scaled: Vec3)
    ensures
        is_scaled_by(*position, *factors, scaled),
{
    position.component_mul(factors)
}

/// Subtracts two numbers with std's `-`. The contract only records the
/// call.
#[verifier::external_body]
pub(crate) fn scalar_sub(a: Scalar, b: Scalar) -> (d: Scalar)
    ensures
        is_scalar_difference_of(a, b, d),
{
    a - b
}

/// Divides two numbers with std's `/`. The contract only records the call.
#[verifier::external_body]
pub(crate) fn scalar_div(a: Scalar, b: Scalar) -> (q: Scalar)
    ensures
        is_scalar_quotient_of(a, b, q),
{
    a / b
}

/// Calls `nalgebra::zero`: positive zero, whose bits are all clear.
#[verifier::external_body]
pub(crate) fn scalar_zero() -> (z: Scalar)
    ensures
        z.to_bits_spec() == 0,
{
    nalgebra::zero()
}

/// Calls `nalgebra::one`: the number one, whose bits are `0x3f80_0000`.
#[verifier::external_body]
pub(crate) fn scalar_one() -> (one: Scalar)
    ensures
        one.to_bits_spec() == 0x3f80_0000,
{
    nalgebra::one()
}

} // verus!
