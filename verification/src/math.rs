//! Fixed-point vectors and the integer arithmetic that the movement rules
//! are stated in.

use vstd::prelude::*;
use crate::grid::Point3;

verus! {

/// A vector with unbounded integer coordinates: what `Vector3` stands for in
/// contracts.
pub type SpecVector = Point3;

/// A direction, velocity or displacement, each coordinate in thousandths.
#[derive(Clone, Copy, Debug, PartialEq, Eq, Structural)]
pub struct Vector3 {
    pub x: i32,
    pub y: i32,
    pub z: i32,
}

impl View for Vector3 {
    type V = SpecVector;

    open spec fn view(&self) -> SpecVector {
        SpecVector { x: self.x as int, y: self.y as int, z: self.z as int }
    }
}

/// The normal of a surface, each coordinate in thousandths: a vector of
/// length one has coordinates between minus and plus one thousand.
#[derive(Clone, Copy, Debug, PartialEq, Eq, Structural)]
pub struct Normal {
    pub x: i16,
    pub y: i16,
    pub z: i16,
}

impl View for Normal {
    type V = SpecVector;

    open spec fn view(&self) -> SpecVector {
        SpecVector { x: self.x as int, y: self.y as int, z: self.z as int }
    }
}

/// The dot product of two vectors.
pub open spec fn dot(a: SpecVector, b: SpecVector) -> int {
    a.x * b.x + a.y * b.y + a.z * b.z
}

/// The cross product of two vectors.
pub open spec fn cross(a: SpecVector, b: SpecVector) -> SpecVector {
    SpecVector {
        x: a.y * b.z - a.z * b.y,
        y: a.z * b.x - a.x * b.z,
        z: a.x * b.y - a.y * b.x,
    }
}

/// The squared length of a vector.
pub open spec fn length_squared(v: SpecVector) -> int {
    v.x * v.x + v.y * v.y + v.z * v.z
}

/// `a / d` rounded towards zero, for a positive `d`.
pub open spec fn trunc_div(a: int, d: int) -> int {
    if a >= 0 {
        a / d
    } else {
        -((-a) / d)
    }
}

/// The nearest value that a coordinate can hold.
pub open spec fn clamp_i32(a: int) -> int {
    if a < i32::MIN {
        i32::MIN as int
    } else if a > i32::MAX {
        i32::MAX as int
    } else {
        a
    }
}

/// Whether `r` is the square root of `n` rounded up.
pub open spec fn is_ceil_sqrt(n: int, r: int) -> bool {
    &&& 0 <= r
    &&& n <= r * r
    &&& r == 0 || (r - 1) * (r - 1) < n
}

/// A square is not negative.
pub proof fn lemma_square_nonnegative(a: int)
    ensures
        0 <= a * a,
{
    assert(0 <= a * a) by (nonlinear_arith);
}

/// Squaring keeps the order of numbers that are not negative.
pub proof fn lemma_square_monotonic(a: int, b: int)
    requires
        0 <= a <= b,
    ensures
        a * a <= b * b,
{
    assert(a * a <= b * b) by (nonlinear_arith)
        requires
            0 <= a <= b,
    ;
}

/// Squaring keeps the strict order of numbers that are not negative.
pub proof fn lemma_square_strictly_monotonic(a: int, b: int)
    requires
        0 <= a < b,
    ensures
        a * a < b * b,
{
    assert(a * a < b * b) by (nonlinear_arith)
        requires
            0 <= a < b,
    ;
}

/// Rounding towards zero never grows a number, and keeps its sign.
pub proof fn lemma_trunc_div_bounds(a: int, d: int)
    requires
        0 < d,
    ensures
        a >= 0 ==> 0 <= trunc_div(a, d) && trunc_div(a, d) * d <= a < (trunc_div(a, d) + 1) * d,
        a < 0 ==> trunc_div(a, d) <= 0 && (trunc_div(a, d) - 1) * d < a <= trunc_div(a, d) * d,
{
    let m = if a >= 0 {
        a
    } else {
        -a
    };
    let q = m / d;
    vstd::arithmetic::div_mod::lemma_fundamental_div_mod(m, d);
    vstd::arithmetic::div_mod::lemma_mod_bound(m, d);
    assert(m == d * q + m % d);
    assert(0 <= q) by (nonlinear_arith)
        requires
            m == d * q + m % d,
            0 <= m % d < d,
            0 <= m,
            0 < d,
    ;
    assert(d * q == q * d) by (nonlinear_arith);
    assert((q + 1) * d == q * d + d) by (nonlinear_arith);
    if a < 0 {
        assert((-q) * d == -(q * d)) by (nonlinear_arith);
        assert((-q - 1) * d == -(q * d) - d) by (nonlinear_arith);
    }
}

impl Vector3 {
    /// The vector with all coordinates zero.
    pub fn zero() -> (r: Vector3)
        ensures
            r == (Vector3 { x: 0, y: 0, z: 0 }),
    {
        Vector3 { x: 0, y: 0, z: 0 }
    }

    /// The squared length of the vector.
    pub fn length_squared(&self) -> (r: u64)
        ensures
            r == length_squared(self@),
    {
        let x: i128 = self.x as i128;
        let y: i128 = self.y as i128;
        let z: i128 = self.z as i128;
        proof {
            lemma_square_bound(x as int);
            lemma_square_bound(y as int);
            lemma_square_bound(z as int);
        }
        (x * x + y * y + z * z) as u64
    }
}

/// The square of a coordinate fits in 62 bits.
pub proof fn lemma_square_bound(a: int)
    requires
        i32::MIN <= a <= i32::MAX,
    ensures
        0 <= a * a <= 0x4000_0000_0000_0000,
{
    assert(0 <= a * a <= 0x4000_0000_0000_0000) by (nonlinear_arith)
        requires
            -0x8000_0000 <= a <= 0x7fff_ffff,
    ;
}

/// The square root of `n` rounded up.
pub fn ceil_sqrt(n: u64) -> (r: u64)
    ensures
        is_ceil_sqrt(n as int, r as int),
        r <= 0x1_0000_0000,
{
    if n == 0 {
        return 0;
    }
    // The answer lies in (low, high]: low * low < n <= high * high.
    let mut low: u64 = 0;
    let mut high: u64 = 0x1_0000_0000;
    assert(0x1_0000_0000 * 0x1_0000_0000 > u64::MAX) by (nonlinear_arith);
    while high - low > 1
        invariant
            0 <= low < high <= 0x1_0000_0000,
            low * low < n <= high * high,
        decreases high - low,
    {
        let mid: u64 = low + (high - low) / 2;
        proof {
            lemma_square_monotonic(mid as int, 0xffff_ffff);
            assert(0xffff_ffff * 0xffff_ffff < u64::MAX) by (nonlinear_arith);
        }
        if mid * mid < n {
            low = mid;
        } else {
            high = mid;
        }
    }
    high
}

} // verus!
