//! The linear-algebra operations the animation core needs, taken from glam.
//!
//! Matrices, vectors and quaternions are opaque to the verifier: the core only
//! decides which operations are applied to which operands and in what order.
//! Each operation's result is named by a spec function of its operands.
use vstd::prelude::*;

verus! {

#[verifier::external_type_specification]
#[verifier::external_body]
pub struct ExMat4(glam::Mat4);

#[verifier::external_type_specification]
#[verifier::external_body]
pub struct ExVec3(glam::Vec3);

#[verifier::external_type_specification]
#[verifier::external_body]
pub struct ExQuat(glam::Quat);

/// The product `a * b` of two 4x4 matrices.
pub uninterp spec fn mat_product(a: glam::Mat4, b: glam::Mat4) -> glam::Mat4;

/// The affine matrix that translates by `v`.
pub uninterp spec fn translation_matrix(v: glam::Vec3) -> glam::Mat4;

/// The affine matrix that rotates by the quaternion `q`.
pub uninterp spec fn rotation_matrix(q: glam::Quat) -> glam::Mat4;

/// The affine matrix that scales by `v`.
pub uninterp spec fn scale_matrix(v: glam::Vec3) -> glam::Mat4;

/// Linear interpolation from `a` to `b` at the ratio `num / den`.
pub uninterp spec fn vec3_lerp(a: glam::Vec3, b: glam::Vec3, num: u64, den: u64) -> glam::Vec3;

/// Spherical linear interpolation from `a` to `b` at the ratio `num / den`.
pub uninterp spec fn quat_slerp(a: glam::Quat, b: glam::Quat, num: u64, den: u64) -> glam::Quat;

/// Relies on glam's `Mul for Mat4`: the product depends on the two operands alone.
#[verifier::external_body]
pub(crate) fn mat_mul(a: &glam::Mat4, b: &glam::Mat4) -> (r: glam::Mat4)
    ensures
        r == mat_product(*a, *b),
{
    *a * *b
}

/// Relies on glam's `Mat4::from_translation`.
#[verifier::external_body]
pub(crate) fn mat_from_translation(v: &glam::Vec3) -> (r: glam::Mat4)
    ensures
        r == translation_matrix(*v),
{
    glam::Mat4::from_translation(*v)
}

/// Relies on glam's `Mat4::from_quat`.
#[verifier::external_body]
pub(crate) fn mat_from_rotation(q: &glam::Quat) -> (r: glam::Mat4)
    ensures
        r == rotation_matrix(*q),
{
    glam::Mat4::from_quat(*q)
}

/// Relies on glam's `Mat4::from_scale`.
#[verifier::external_body]
pub(crate) fn mat_from_scale(v: &glam::Vec3) -> (r: glam::Mat4)
    ensures
        r == scale_matrix(*v),
{
    glam::Mat4::from_scale(*v)
}

/// Relies on glam's `Vec3::lerp`, with the factor `num / den` handed over as
/// the quotient of two durations of `num` and `den` microseconds.
#[verifier::external_body]
pub(crate) fn lerp_vec3(a: &glam::Vec3, b: &glam::Vec3, num: u64, den: u64) -> (r: glam::Vec3)
    requires
        0 < den,
    ensures
        r == vec3_lerp(*a, *b, num, den),
{
    let s = std::time::Duration::from_micros(num).div_duration_f32(
        std::time::Duration::from_micros(den),
    );
    a.lerp(*b, s)
}

/// Relies on glam's `Quat::slerp`, with the factor `num / den` handed over as
/// the quotient of two durations of `num` and `den` microseconds.
#[verifier::external_body]
pub(crate) fn slerp_quat(a: &glam::Quat, b: &glam::Quat, num: u64, den: u64) -> (r: glam::Quat)
    requires
        0 < den,
    ensures
        r == quat_slerp(*a, *b, num, den),
{
    let s = std::time::Duration::from_micros(num).div_duration_f32(
        std::time::Duration::from_micros(den),
    );
    a.slerp(*b, s)
}

} // verus!
