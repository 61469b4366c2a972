//! Integer points and squared Euclidean distances.

use vstd::prelude::*;

verus! {

/// A point or a vector in hundredths of a unit.
#[derive(Clone, Copy, Debug, PartialEq, Eq, Structural)]
pub struct Vec3 {
    pub x: i32,
    pub y: i32,
    pub z: i32,
}

/// The square of an integer.
pub open spec fn square(d: int) -> int {
    d * d
}

/// The squared Euclidean distance between two points given by coordinates.
pub open spec fn dist_sq_coords(ax: int, ay: int, az: int, bx: int, by: int, bz: int) -> int {
    square(ax - bx) + square(ay - by) + square(az - bz)
}

/// The largest squared distance between two points with `i32` coordinates.
pub open spec fn max_dist_sq() -> int {
    3 * (0xFFFF_FFFFint * 0xFFFF_FFFFint)
}

/// A square is never negative, and the square of a difference of two `i32`
/// values is at most `(2^32 - 1)^2`.
pub proof fn lemma_square_bounds(a: i32, b: i32)
    ensures
        0 <= square(a - b) <= 0xFFFF_FFFF * 0xFFFF_FFFF,
        square(a - b) == 0 <==> a == b,
{
    let d: int = a - b;
    assert(-0xFFFF_FFFF <= d <= 0xFFFF_FFFF);
    assert(0 <= d * d <= 0xFFFF_FFFF * 0xFFFF_FFFF) by (nonlinear_arith)
        requires
            -0xFFFF_FFFF <= d <= 0xFFFF_FFFF,
    ;
    assert(d * d == 0 <==> d == 0) by (nonlinear_arith);
}

/// The absolute difference of two `i32` values.
pub fn abs_diff(a: i32, b: i32) -> (r: u64)
    ensures
        r == if a >= b { a - b } else { b - a },
        r <= 0xFFFF_FFFF,
{
    let wide_a: i64 = a as i64;
    let wide_b: i64 = b as i64;
    if wide_a >= wide_b {
        (wide_a - wide_b) as u64
    } else {
        (wide_b - wide_a) as u64
    }
}

/// The square of the difference of two `i32` values.
pub fn diff_sq(a: i32, b: i32) -> (r: u128)
    ensures
        r == square(a - b),
{
    let d: u128 = abs_diff(a, b) as u128;
    proof {
        lemma_square_bounds(a, b);
        let di: int = a - b;
        assert(d * d == di * di) by (nonlinear_arith)
            requires
                d == di || d == -di,
        ;
    }
    d * d
}

impl Vec3 {
    /// The squared distance from `self` to `other`.
    pub open spec fn dist_sq_spec(self, other: Vec3) -> int {
        dist_sq_coords(
            self.x as int,
            self.y as int,
            self.z as int,
            other.x as int,
            other.y as int,
            other.z as int,
        )
    }

    /// The squared length of `self`.
    pub open spec fn norm_sq_spec(self) -> int {
        square(self.x as int) + square(self.y as int) + square(self.z as int)
    }

    /// The point with the coordinates `x`, `y` and `z`.
    pub fn new(x: i32, y: i32, z: i32) -> (v: Vec3)
        ensures
            v == (Vec3 { x, y, z }),
    {
        Vec3 { x, y, z }
    }

    /// Computes the squared distance to `other` without overflow.
    pub fn dist_sq(&self, other: &Vec3) -> (r: u128)
        ensures
            r == self.dist_sq_spec(*other),
            r <= max_dist_sq(),
            r == 0 <==> *self == *other,
    {
        proof {
            lemma_square_bounds(self.x, other.x);
            lemma_square_bounds(self.y, other.y);
            lemma_square_bounds(self.z, other.z);
        }
        let dx: u128 = diff_sq(self.x, other.x);
        let dy: u128 = diff_sq(self.y, other.y);
        let dz: u128 = diff_sq(self.z, other.z);
        dx + dy + dz
    }

    /// Computes the squared length of `self` without overflow.
    pub fn norm_sq(&self) -> (r: u128)
        ensures
            r == self.norm_sq_spec(),
    {
        proof {
            lemma_square_bounds(self.x, 0);
            lemma_square_bounds(self.y, 0);
            lemma_square_bounds(self.z, 0);
        }
        let dx: u128 = diff_sq(self.x, 0);
        let dy: u128 = diff_sq(self.y, 0);
        let dz: u128 = diff_sq(self.z, 0);
        dx + dy + dz
    }
}

} // verus!
