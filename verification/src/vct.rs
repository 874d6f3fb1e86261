//! Three-component vectors over the fixed-point scalar, with the affine and
//! linear operations the simplifier needs. A fourth logical coordinate,
//! fixed at one, is supplied where a vector is used homogeneously.

use vstd::prelude::*;

use crate::fx::FX_ONE;
use crate::fx::fx_add;
use crate::fx::fx_add_spec;
use crate::fx::fx_div;
use crate::fx::fx_div_spec;
use crate::fx::fx_max;
use crate::fx::fx_min;
use crate::fx::fx_mul;
use crate::fx::fx_mul_spec;
use crate::fx::fx_neg;
use crate::fx::fx_neg_spec;
use crate::fx::fx_sqrt;
use crate::fx::fx_sub;
use crate::fx::fx_sub_spec;

verus! {

#[derive(Clone, Copy, Debug, PartialEq, Eq, Structural)]
pub struct Vct {
    pub x: i64,
    pub y: i64,
    pub z: i64,
}

/// Dot product in the evaluation order of `dot`: `x*x + y*y`, then `+ z*z`.
pub open spec fn dot_spec(a: Vct, b: Vct) -> int {
    fx_add_spec(
        fx_add_spec(fx_mul_spec(a.x as int, b.x as int), fx_mul_spec(a.y as int, b.y as int)),
        fx_mul_spec(a.z as int, b.z as int),
    )
}

/// The result of the fixed-point square root on `a`: zero for non-positive
/// `a`, otherwise the largest scalar whose square at raw precision does not
/// exceed `a`. This characterizes the result uniquely.
pub open spec fn is_fx_sqrt(a: int, r: int) -> bool {
    if a <= 0 {
        r == 0
    } else {
        &&& r >= 0
        &&& r * r <= a * 0x1_0000_0000
        &&& (r + 1) * (r + 1) > a * 0x1_0000_0000
    }
}

impl Vct {
    pub fn zero() -> (r: Self)
        ensures
            r == (Vct { x: 0i64, y: 0i64, z: 0i64 }),
    {
        Self { x: 0, y: 0, z: 0 }
    }

    pub fn one() -> (r: Self)
        ensures
            r == (Vct { x: FX_ONE, y: FX_ONE, z: FX_ONE }),
    {
        Self { x: FX_ONE, y: FX_ONE, z: FX_ONE }
    }

    pub fn new(x: i64, y: i64, z: i64) -> (r: Self)
        ensures
            r == (Vct { x, y, z }),
    {
        Self { x, y, z }
    }

    pub fn dot(&self, rhs: Self) -> (r: i64)
        ensures
            r == dot_spec(*self, rhs),
    {
        fx_add(
            fx_add(fx_mul(self.x, rhs.x), fx_mul(self.y, rhs.y)),
            fx_mul(self.z, rhs.z),
        )
    }

    /// Squared Euclidean length.
    pub fn len2(&self) -> (r: i64)
        ensures
            r == dot_spec(*self, *self),
    {
        self.dot(*self)
    }

    /// Euclidean length: the fixed-point square root of `len2`.
    pub fn len(&self) -> (r: i64)
        ensures
            is_fx_sqrt(dot_spec(*self, *self), r as int),
    {
        fx_sqrt(self.len2())
    }

    /// Componentwise division by the length. A zero-length vector divides by
    /// zero, which saturates componentwise under the scalar's total
    /// division.
    pub fn norm(&self) -> (r: Self)
        ensures
            exists|l: int|
                {
                    &&& is_fx_sqrt(dot_spec(*self, *self), l)
                    &&& r.x == fx_div_spec(self.x as int, l)
                    &&& r.y == fx_div_spec(self.y as int, l)
                    &&& r.z == fx_div_spec(self.z as int, l)
                },
    {
        let l: i64 = self.len();
        let r = Self { x: fx_div(self.x, l), y: fx_div(self.y, l), z: fx_div(self.z, l) };
        proof {
            assert(is_fx_sqrt(dot_spec(*self, *self), l as int) && r.x == fx_div_spec(
                self.x as int,
                l as int,
            ) && r.y == fx_div_spec(self.y as int, l as int) && r.z == fx_div_spec(
                self.z as int,
                l as int,
            ));
        }
        r
    }

    pub fn min(&self, rhs: Self) -> (r: Self)
        ensures
            r.x == if self.x as int <= rhs.x as int {
                self.x as int
            } else {
                rhs.x as int
            },
            r.y == if self.y as int <= rhs.y as int {
                self.y as int
            } else {
                rhs.y as int
            },
            r.z == if self.z as int <= rhs.z as int {
                self.z as int
            } else {
                rhs.z as int
            },
    {
        Self { x: fx_min(self.x, rhs.x), y: fx_min(self.y, rhs.y), z: fx_min(self.z, rhs.z) }
    }

    pub fn max(&self, rhs: Self) -> (r: Self)
        ensures
            r.x == if self.x as int >= rhs.x as int {
                self.x as int
            } else {
                rhs.x as int
            },
            r.y == if self.y as int >= rhs.y as int {
                self.y as int
            } else {
                rhs.y as int
            },
            r.z == if self.z as int >= rhs.z as int {
                self.z as int
            } else {
                rhs.z as int
            },
    {
        Self { x: fx_max(self.x, rhs.x), y: fx_max(self.y, rhs.y), z: fx_max(self.z, rhs.z) }
    }

    /// Componentwise sum.
    pub fn add(&self, rhs: Self) -> (r: Self)
        ensures
            r.x == fx_add_spec(self.x as int, rhs.x as int),
            r.y == fx_add_spec(self.y as int, rhs.y as int),
            r.z == fx_add_spec(self.z as int, rhs.z as int),
    {
        Self { x: fx_add(self.x, rhs.x), y: fx_add(self.y, rhs.y), z: fx_add(self.z, rhs.z) }
    }

    /// Sum with a scalar in every component.
    pub fn adds(&self, rhs: i64) -> (r: Self)
        ensures
            r.x == fx_add_spec(self.x as int, rhs as int),
            r.y == fx_add_spec(self.y as int, rhs as int),
            r.z == fx_add_spec(self.z as int, rhs as int),
    {
        Self { x: fx_add(self.x, rhs), y: fx_add(self.y, rhs), z: fx_add(self.z, rhs) }
    }

    /// Componentwise difference.
    pub fn sub(&self, rhs: Self) -> (r: Self)
        ensures
            r.x == fx_sub_spec(self.x as int, rhs.x as int),
            r.y == fx_sub_spec(self.y as int, rhs.y as int),
            r.z == fx_sub_spec(self.z as int, rhs.z as int),
    {
        Self { x: fx_sub(self.x, rhs.x), y: fx_sub(self.y, rhs.y), z: fx_sub(self.z, rhs.z) }
    }

    /// Difference with a scalar in every component.
    pub fn subs(&self, rhs: i64) -> (r: Self)
        ensures
            r.x == fx_sub_spec(self.x as int, rhs as int),
            r.y == fx_sub_spec(self.y as int, rhs as int),
            r.z == fx_sub_spec(self.z as int, rhs as int),
    {
        Self { x: fx_sub(self.x, rhs), y: fx_sub(self.y, rhs), z: fx_sub(self.z, rhs) }
    }

    /// Componentwise product.
    pub fn mul(&self, rhs: Self) -> (r: Self)
        ensures
            r.x == fx_mul_spec(self.x as int, rhs.x as int),
            r.y == fx_mul_spec(self.y as int, rhs.y as int),
            r.z == fx_mul_spec(self.z as int, rhs.z as int),
    {
        Self { x: fx_mul(self.x, rhs.x), y: fx_mul(self.y, rhs.y), z: fx_mul(self.z, rhs.z) }
    }

    /// Scaling by a scalar.
    pub fn muls(&self, rhs: i64) -> (r: Self)
        ensures
            r.x == fx_mul_spec(self.x as int, rhs as int),
            r.y == fx_mul_spec(self.y as int, rhs as int),
            r.z == fx_mul_spec(self.z as int, rhs as int),
    {
        Self { x: fx_mul(self.x, rhs), y: fx_mul(self.y, rhs), z: fx_mul(self.z, rhs) }
    }

    /// Componentwise quotient.
    pub fn div(&self, rhs: Self) -> (r: Self)
        ensures
            r.x == fx_div_spec(self.x as int, rhs.x as int),
            r.y == fx_div_spec(self.y as int, rhs.y as int),
            r.z == fx_div_spec(self.z as int, rhs.z as int),
    {
        Self { x: fx_div(self.x, rhs.x), y: fx_div(self.y, rhs.y), z: fx_div(self.z, rhs.z) }
    }

    /// Division by a scalar in every component.
    pub fn divs(&self, rhs: i64) -> (r: Self)
        ensures
            r.x == fx_div_spec(self.x as int, rhs as int),
            r.y == fx_div_spec(self.y as int, rhs as int),
            r.z == fx_div_spec(self.z as int, rhs as int),
    {
        Self { x: fx_div(self.x, rhs), y: fx_div(self.y, rhs), z: fx_div(self.z, rhs) }
    }

    /// Componentwise negation.
    pub fn neg(&self) -> (r: Self)
        ensures
            r.x == fx_neg_spec(self.x as int),
            r.y == fx_neg_spec(self.y as int),
            r.z == fx_neg_spec(self.z as int),
    {
        Self { x: fx_neg(self.x), y: fx_neg(self.y), z: fx_neg(self.z) }
    }

    /// Cross product, each component in the order `u*v - w*t`.
    pub fn cross(&self, rhs: Self) -> (r: Self)
        ensures
            r.x == fx_sub_spec(
                fx_mul_spec(self.y as int, rhs.z as int),
                fx_mul_spec(self.z as int, rhs.y as int),
            ),
            r.y == fx_sub_spec(
                fx_mul_spec(self.z as int, rhs.x as int),
                fx_mul_spec(self.x as int, rhs.z as int),
            ),
            r.z == fx_sub_spec(
                fx_mul_spec(self.x as int, rhs.y as int),
                fx_mul_spec(self.y as int, rhs.x as int),
            ),
    {
        Self {
            x: fx_sub(fx_mul(self.y, rhs.z), fx_mul(self.z, rhs.y)),
            y: fx_sub(fx_mul(self.z, rhs.x), fx_mul(self.x, rhs.z)),
            z: fx_sub(fx_mul(self.x, rhs.y), fx_mul(self.y, rhs.x)),
        }
    }

    /// The homogeneous coordinate with index 3 fixed at one; indices 0 to 2
    /// select the components.
    pub fn coord(&self, idx: usize) -> (r: i64)
        requires
            idx <= 3,
        ensures
            idx == 0 ==> r == self.x,
            idx == 1 ==> r == self.y,
            idx == 2 ==> r == self.z,
            idx == 3 ==> r == FX_ONE,
    {
        if idx == 0 {
            self.x
        } else if idx == 1 {
            self.y
        } else if idx == 2 {
            self.z
        } else {
            FX_ONE
        }
    }
}

} // verus!
