//! Trusted scalar kernel for rigid-transform and timestamp arithmetic.
//!
//! The animation pipeline works on IEEE-754 values: key positions, key
//! rotations, rest transforms and timestamps. Verified code never computes
//! with such values directly. It carries them opaquely in `glam` vector
//! types, and hands every arithmetic step to one of the small trusted
//! operations of this module. Each opaque value is modelled in
//! specifications by the bit patterns of its lanes, and each trusted
//! operation is pinned to an uninterpreted function of those bit patterns,
//! so the verified pipeline states exactly which operation was applied to
//! which data. Bit patterns of timestamps are also compared and ordered
//! directly by verified code: for the non-negative times that tick-to-second
//! conversion yields, the unsigned order of the patterns coincides with the
//! numeric order of the values.
use vstd::prelude::*;

verus! {

#[verifier::external_type_specification]
#[verifier::external_body]
pub struct ExVec2(glam::Vec2);

#[verifier::external_type_specification]
#[verifier::external_body]
pub struct ExVec3(glam::Vec3);

#[verifier::external_type_specification]
#[verifier::external_body]
pub struct ExQuat(glam::Quat);

#[verifier::external_type_specification]
#[verifier::external_body]
pub struct ExMat3(glam::Mat3);

#[verifier::external_type_specification]
#[verifier::external_body]
pub struct ExMat4(glam::Mat4);

#[verifier::external_type_specification]
#[verifier::external_body]
pub struct ExDVec2(glam::DVec2);

/// Bit patterns of the three lanes of a single-precision 3-vector.
pub type V3Bits = (u32, u32, u32);

/// Bit patterns of the four lanes (x, y, z, w) of a quaternion.
pub type QBits = (u32, u32, u32, u32);

/// Bit patterns of the three columns of a 3x3 matrix.
pub type M3Bits = (V3Bits, V3Bits, V3Bits);

/// Bit patterns of the four columns of a 4x4 matrix.
pub type M4Bits = ((u32, u32, u32, u32), (u32, u32, u32, u32), (u32, u32, u32, u32), (u32, u32, u32, u32));

/// Bit pattern of the x lane of a single-precision pair.
pub uninterp spec fn scalar_bits(v: glam::Vec2) -> u32;

/// Bit pattern of the x lane of a double-precision pair.
pub uninterp spec fn dscalar_bits(v: glam::DVec2) -> u64;

/// Bit patterns of the lanes of a single-precision 3-vector.
pub uninterp spec fn vec3_bits(v: glam::Vec3) -> V3Bits;

/// Bit patterns of the lanes of a quaternion.
pub uninterp spec fn quat_bits(q: glam::Quat) -> QBits;

/// Bit patterns of a 3x3 matrix, as columns x, y, z.
pub uninterp spec fn mat3_bits(m: glam::Mat3) -> M3Bits;

/// Bit patterns of a 4x4 matrix, as columns x, y, z, w.
pub uninterp spec fn mat4_bits(m: glam::Mat4) -> M4Bits;

/// Componentwise IEEE single-precision subtraction, on bit patterns.
pub uninterp spec fn sub_v3(a: V3Bits, b: V3Bits) -> V3Bits;

/// Whether each component of `a` differs from the corresponding component of
/// `b` by at most the tolerance with bit pattern `eps` (absolute IEEE
/// single-precision difference, inclusive).
pub uninterp spec fn within_v3(a: V3Bits, b: V3Bits, eps: u32) -> bool;

/// The unit quaternion that glam reads off an orthonormal 3x3 basis.
pub uninterp spec fn quat_of_mat3(m: M3Bits) -> QBits;

/// The inverse (conjugate, for unit inputs) of a quaternion.
pub uninterp spec fn quat_inv(q: QBits) -> QBits;

/// The Hamilton product of two quaternions.
pub uninterp spec fn quat_mul(a: QBits, b: QBits) -> QBits;

/// The orthonormal 3x3 basis of a unit quaternion.
pub uninterp spec fn mat3_of_quat(q: QBits) -> M3Bits;

/// The IEEE double-precision quotient of a tick count and a rate, as the bit
/// pattern of the time in seconds.
pub uninterp spec fn secs_of(ticks: u64, rate: u64) -> u64;

/// The rate actually used for tick-to-second conversion: the declared rate if
/// it is positive, and the 24 ticks-per-second default otherwise.
pub uninterp spec fn eff_rate(rate: u64) -> u64;

/// Bit pattern of IEEE single-precision positive infinity. Every tolerance
/// bit pattern at or below it denotes a non-negative, non-NaN value.
pub const F32_INFINITY_BITS: u32 = 0x7f80_0000;

/// Bit pattern of the single-precision value one.
pub const F32_ONE_BITS: u32 = 0x3f80_0000;

/// Bit pattern of the default comparison tolerance, the single-precision
/// value closest to one hundred-thousandth.
pub const TOLERANCE_DEFAULT_BITS: u32 = 0x3727_c5ac;

/// Bit pattern of the double-precision value 24, the default tick rate.
pub const RATE_DEFAULT_BITS: u64 = 0x4038_0000_0000_0000;

/// Componentwise subtraction of two 3-vectors.
///
/// Relies on glam's `Vec3` subtraction operator: one IEEE single-precision
/// subtraction per lane, a function of the operands alone.
#[verifier::external_body]
pub(crate) fn vec3_sub(a: &glam::Vec3, b: &glam::Vec3) -> (r: glam::Vec3)
    ensures
        vec3_bits(r) == sub_v3(vec3_bits(*a), vec3_bits(*b)),
{
    *a - *b
}

/// Componentwise tolerance comparison of two 3-vectors.
///
/// Relies on glam's `Vec3::abs_diff_eq`, which holds exactly when
/// `|a.i - b.i| <= eps` in each lane, a function of the operands alone.
/// The second clause records that the comparison is monotone in the
/// tolerance, which the formula shows for any second tolerance that is
/// non-negative and not NaN, that is, whose bit pattern is at most that of
/// positive infinity.
#[verifier::external_body]
pub(crate) fn vec3_within(a: &glam::Vec3, b: &glam::Vec3, eps: &glam::Vec2) -> (r: bool)
    ensures
        r == within_v3(vec3_bits(*a), vec3_bits(*b), scalar_bits(*eps)),
        (forall|e2: u32|
            r && scalar_bits(*eps) <= e2 <= F32_INFINITY_BITS ==> within_v3(
                vec3_bits(*a),
                vec3_bits(*b),
                e2,
            )),
{
    a.abs_diff_eq(*b, eps.x)
}

/// The all-zero 3-vector, the default relative position.
///
/// Relies on glam's `Vec3::ZERO`; IEEE positive zero is the all-zero bit
/// pattern.
#[verifier::external_body]
pub(crate) fn vec3_zero() -> (r: glam::Vec3)
    ensures
        vec3_bits(r) == (0u32, 0u32, 0u32),
{
    glam::Vec3::ZERO
}

/// The identity quaternion (0, 0, 0, 1), the default relative rotation.
///
/// Relies on glam's `Quat::IDENTITY`.
#[verifier::external_body]
pub(crate) fn quat_identity() -> (r: glam::Quat)
    ensures
        quat_bits(r) == (0u32, 0u32, 0u32, F32_ONE_BITS),
{
    glam::Quat::IDENTITY
}

/// The translation held in the fourth column of a 4x4 transform.
///
/// Relies on glam's `Vec4::truncate`: the first three lanes of the w column,
/// unchanged.
#[verifier::external_body]
pub(crate) fn mat4_translation(m: &glam::Mat4) -> (r: glam::Vec3)
    ensures
        vec3_bits(r) == ((mat4_bits(*m).3.0, mat4_bits(*m).3.1, mat4_bits(*m).3.2)),
{
    m.w_axis.truncate()
}

/// The upper-left 3x3 block of a 4x4 transform.
///
/// Relies on glam's `Mat3::from_mat4`: the first three lanes of each of the
/// first three columns, unchanged.
#[verifier::external_body]
pub(crate) fn mat4_upper3(m: &glam::Mat4) -> (r: glam::Mat3)
    ensures
        mat3_bits(r) == ((
            (mat4_bits(*m).0.0, mat4_bits(*m).0.1, mat4_bits(*m).0.2),
            (mat4_bits(*m).1.0, mat4_bits(*m).1.1, mat4_bits(*m).1.2),
            (mat4_bits(*m).2.0, mat4_bits(*m).2.1, mat4_bits(*m).2.2),
        )),
{
    glam::Mat3::from_mat4(*m)
}

/// The x column of a 3x3 matrix.
///
/// Relies on reading glam's `Mat3::x_axis` field.
#[verifier::external_body]
pub(crate) fn mat3_col_x(m: &glam::Mat3) -> (r: glam::Vec3)
    ensures
        vec3_bits(r) == mat3_bits(*m).0,
{
    m.x_axis
}

/// The y column of a 3x3 matrix.
///
/// Relies on reading glam's `Mat3::y_axis` field.
#[verifier::external_body]
pub(crate) fn mat3_col_y(m: &glam::Mat3) -> (r: glam::Vec3)
    ensures
        vec3_bits(r) == mat3_bits(*m).1,
{
    m.y_axis
}

/// The z column of a 3x3 matrix.
///
/// Relies on reading glam's `Mat3::z_axis` field.
#[verifier::external_body]
pub(crate) fn mat3_col_z(m: &glam::Mat3) -> (r: glam::Vec3)
    ensures
        vec3_bits(r) == mat3_bits(*m).2,
{
    m.z_axis
}

/// The quaternion of an orthonormal 3x3 basis.
///
/// Relies on glam's `Quat::from_mat3`, a function of the matrix alone.
#[verifier::external_body]
pub(crate) fn quat_from_mat3(m: &glam::Mat3) -> (r: glam::Quat)
    ensures
        quat_bits(r) == quat_of_mat3(mat3_bits(*m)),
{
    glam::Quat::from_mat3(m)
}

/// The inverse of a quaternion.
///
/// Relies on glam's `Quat::inverse`, a function of the quaternion alone.
#[verifier::external_body]
pub(crate) fn quat_inverse(q: &glam::Quat) -> (r: glam::Quat)
    ensures
        quat_bits(r) == quat_inv(quat_bits(*q)),
{
    q.inverse()
}

/// The Hamilton product of two quaternions.
///
/// Relies on glam's `Quat` multiplication operator, a function of the
/// operands alone.
#[verifier::external_body]
pub(crate) fn quat_multiply(a: &glam::Quat, b: &glam::Quat) -> (r: glam::Quat)
    ensures
        quat_bits(r) == quat_mul(quat_bits(*a), quat_bits(*b)),
{
    *a * *b
}

/// The orthonormal 3x3 basis of a unit quaternion.
///
/// Relies on glam's `Mat3::from_quat`, a function of the quaternion alone.
#[verifier::external_body]
pub(crate) fn mat3_from_quat(q: &glam::Quat) -> (r: glam::Mat3)
    ensures
        mat3_bits(r) == mat3_of_quat(quat_bits(*q)),
{
    glam::Mat3::from_quat(*q)
}

/// Conversion of a key's tick count to seconds at a given rate.
///
/// Relies on glam's `DVec2` division operator: one IEEE double-precision
/// division per lane, a function of the operands alone; the bit pattern of
/// the x lane of the quotient is returned.
#[verifier::external_body]
pub(crate) fn ticks_to_secs(ticks: &glam::DVec2, rate: &glam::DVec2) -> (r: u64)
    ensures
        r == secs_of(dscalar_bits(*ticks), dscalar_bits(*rate)),
{
    (*ticks / *rate).x.to_bits()
}

/// The rate used for tick-to-second conversion: the declared rate where it
/// compares greater than zero, and 24 ticks per second otherwise.
///
/// Relies on glam's `DVec2::cmpgt` against `DVec2::ZERO` for the IEEE
/// comparison, and on `DVec2::splat` of the integer 24 for the default;
/// both are functions of the declared rate alone.
#[verifier::external_body]
pub(crate) fn rate_or_default(rate: &glam::DVec2) -> (r: glam::DVec2)
    ensures
        dscalar_bits(r) == eff_rate(dscalar_bits(*rate)),
{
    if rate.cmpgt(glam::DVec2::ZERO).x {
        *rate
    } else {
        glam::DVec2::splat(24u8.into())
    }
}

/// The default tick rate of 24 per second, as an opaque double-precision
/// value.
///
/// Relies on glam's `DVec2::splat` of the integer 24, which is represented
/// exactly.
#[verifier::external_body]
pub(crate) fn rate_default() -> (r: glam::DVec2)
    ensures
        dscalar_bits(r) == RATE_DEFAULT_BITS,
{
    glam::DVec2::splat(24u8.into())
}

/// The default comparison tolerance of one hundred-thousandth, as an opaque
/// single-precision value.
///
/// Relies on glam's `Vec2` division: ten raised to the fifth power is exact
/// in single precision, and the correctly rounded reciprocal is the
/// single-precision value nearest one hundred-thousandth.
#[verifier::external_body]
pub(crate) fn tolerance_default_raw() -> (r: glam::Vec2)
    ensures
        scalar_bits(r) == TOLERANCE_DEFAULT_BITS,
{
    let ten = glam::Vec2::splat(10u8.into());
    glam::Vec2::ONE / (ten * ten * ten * ten * ten)
}

} // verus!
