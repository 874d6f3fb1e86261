//! Dense 4x4 matrices over the fixed-point scalar: the quadric error
//! matrices of the simplifier, with elementwise sums, products, the
//! homogeneous quadratic form, and Gauss-Jordan inversion.

use vstd::prelude::*;

use crate::fx::FX_ONE;
use crate::fx::abs_int;
use crate::fx::fx_abs;
use crate::fx::fx_abs_spec;
use crate::fx::fx_div_spec;
use crate::fx::fx_neg_spec;
use crate::fx::fx_add;
use crate::fx::fx_add_spec;
use crate::fx::fx_div;
use crate::fx::fx_mul;
use crate::fx::fx_mul_spec;
use crate::fx::fx_neg;
use crate::fx::fx_sub;
use crate::fx::fx_sub_spec;
use crate::vct::Vct;

verus! {

/// Pivot tolerance and inverse-check tolerance: 10^-5, rounded up to the
/// scalar's resolution.
pub const FX_EPS: i64 = 42950;

#[derive(Clone, Copy, Debug)]
pub struct Mat {
    pub m: [[i64; 4]; 4],
}

/// Entry `(i, j)` of the identity.
pub open spec fn id_spec(i: int, j: int) -> int {
    if i == j {
        FX_ONE as int
    } else {
        0
    }
}

/// Homogeneous coordinate `k` of a vector: its components for `k` 0 to 2,
/// and one for `k` 3.
pub open spec fn hcoord(v: Vct, k: int) -> int {
    if k == 0 {
        v.x as int
    } else if k == 1 {
        v.y as int
    } else if k == 2 {
        v.z as int
    } else {
        FX_ONE as int
    }
}

/// Entry `(i, j)` of the matrix product, summed left to right.
pub open spec fn mul_entry_spec(a: Mat, b: Mat, i: int, j: int) -> int {
    fx_add_spec(
        fx_add_spec(
            fx_add_spec(
                fx_mul_spec(a.m[i][0] as int, b.m[0][j] as int),
                fx_mul_spec(a.m[i][1] as int, b.m[1][j] as int),
            ),
            fx_mul_spec(a.m[i][2] as int, b.m[2][j] as int),
        ),
        fx_mul_spec(a.m[i][3] as int, b.m[3][j] as int),
    )
}

/// Coordinate `i` of the homogeneous row-vector product `v Q`, summed left
/// to right.
pub open spec fn col_dot_spec(q: Mat, v: Vct, i: int) -> int {
    fx_add_spec(
        fx_add_spec(
            fx_add_spec(
                fx_mul_spec(hcoord(v, 0), q.m[0][i] as int),
                fx_mul_spec(hcoord(v, 1), q.m[1][i] as int),
            ),
            fx_mul_spec(hcoord(v, 2), q.m[2][i] as int),
        ),
        fx_mul_spec(hcoord(v, 3), q.m[3][i] as int),
    )
}

/// The quadratic form `v Q v^T` on the homogeneous extension of `v`.
pub open spec fn quad_eval_spec(q: Mat, v: Vct) -> int {
    fx_add_spec(
        fx_add_spec(
            fx_add_spec(
                fx_mul_spec(col_dot_spec(q, v, 0), hcoord(v, 0)),
                fx_mul_spec(col_dot_spec(q, v, 1), hcoord(v, 1)),
            ),
            fx_mul_spec(col_dot_spec(q, v, 2), hcoord(v, 2)),
        ),
        fx_mul_spec(col_dot_spec(q, v, 3), hcoord(v, 3)),
    )
}

/// The sixteen entries of a matrix, row-major.
pub open spec fn mat_seq(m: Mat) -> Seq<int> {
    Seq::new(16, |k: int| m.m[k / 4][k % 4] as int)
}

/// The sixteen entries of the identity, row-major.
pub open spec fn id_seq() -> Seq<int> {
    Seq::new(16, |k: int| id_spec(k / 4, k % 4))
}

/// Row of the largest-magnitude candidate pivot for column `x` among rows
/// `x..i`, the earliest on ties, exactly as the elimination scans them.
pub open spec fn pivot_spec(a: Seq<int>, x: int, i: int) -> int
    decreases i - x,
{
    if i <= x + 1 {
        x
    } else {
        let z = pivot_spec(a, x, i - 1);
        if fx_abs_spec(a[(i - 1) * 4 + x]) > fx_abs_spec(a[z * 4 + x]) {
            i - 1
        } else {
            z
        }
    }
}

/// Rows `r1` and `r2` exchanged from column `lo` on.
pub open spec fn swap_rows_spec(s: Seq<int>, r1: int, r2: int, lo: int) -> Seq<int> {
    Seq::new(
        16,
        |k: int|
            if k / 4 == r1 && k % 4 >= lo {
                s[r2 * 4 + k % 4]
            } else if k / 4 == r2 && k % 4 >= lo {
                s[r1 * 4 + k % 4]
            } else {
                s[k]
            },
    )
}

/// The multiplier that eliminates column `x` of row `i` against pivot row
/// `x`.
pub open spec fn delta_spec(a: Seq<int>, x: int, i: int) -> int {
    fx_mul_spec(fx_div_spec(fx_neg_spec(FX_ONE as int), a[x * 4 + x]), a[i * 4 + x])
}

/// One elimination sweep of column `x` over the working matrix: every row
/// but the pivot row gains its multiple of the pivot row, from column `x`
/// on.
pub open spec fn elim_rows_spec(a: Seq<int>, x: int) -> Seq<int> {
    Seq::new(
        16,
        |k: int|
            if k / 4 != x && k % 4 >= x {
                fx_add_spec(a[k], fx_mul_spec(delta_spec(a, x, k / 4), a[x * 4 + k % 4]))
            } else {
                a[k]
            },
    )
}

/// The same sweep applied to the accumulating inverse, over all columns.
pub open spec fn elim_acc_spec(a: Seq<int>, b: Seq<int>, x: int) -> Seq<int> {
    Seq::new(
        16,
        |k: int|
            if k / 4 != x {
                fx_add_spec(b[k], fx_mul_spec(delta_spec(a, x, k / 4), b[x * 4 + k % 4]))
            } else {
                b[k]
            },
    )
}

/// The forward phase from column `x` on: pick the best remaining pivot,
/// fail when its magnitude is at or below the tolerance, otherwise swap it
/// up and eliminate its column from both matrices.
pub open spec fn gauss_phase_spec(a: Seq<int>, b: Seq<int>, x: int) -> Option<(Seq<int>, Seq<int>)>
    decreases 4 - x,
{
    if x >= 4 {
        Option::Some((a, b))
    } else {
        let z = pivot_spec(a, x, 4);
        if fx_abs_spec(a[z * 4 + x]) <= FX_EPS {
            Option::None
        } else {
            let a1 = swap_rows_spec(a, z, x, x);
            let b1 = swap_rows_spec(b, z, x, 0);
            gauss_phase_spec(elim_rows_spec(a1, x), elim_acc_spec(a1, b1, x), x + 1)
        }
    }
}

/// Each row of the accumulated inverse divided by its diagonal pivot.
pub open spec fn normalize_spec(a: Seq<int>, b: Seq<int>) -> Seq<int> {
    Seq::new(
        16,
        |k: int| fx_mul_spec(b[k], fx_div_spec(FX_ONE as int, a[(k / 4) * 4 + (k / 4)])),
    )
}

/// Entry `(i, j)` of the product of two row-major matrices, summed left to
/// right.
pub open spec fn seq_mul_entry(s: Seq<int>, b: Seq<int>, i: int, j: int) -> int {
    fx_add_spec(
        fx_add_spec(
            fx_add_spec(fx_mul_spec(s[i * 4], b[j]), fx_mul_spec(s[i * 4 + 1], b[4 + j])),
            fx_mul_spec(s[i * 4 + 2], b[8 + j]),
        ),
        fx_mul_spec(s[i * 4 + 3], b[12 + j]),
    )
}

/// The candidate inverse reproduces the identity entrywise within the
/// tolerance.
pub open spec fn seq_residual_ok(s: Seq<int>, b: Seq<int>) -> bool {
    forall|i: int, j: int|
        0 <= i < 4 && 0 <= j < 4 ==> abs_int(
            fx_sub_spec(seq_mul_entry(s, b, i, j), id_spec(i, j)),
        ) < FX_EPS
}

/// Coordinate `i` of the homogeneous row-vector product `v Q` for a
/// row-major matrix, summed left to right.
pub open spec fn col_dot_seq(q: Seq<int>, v: Vct, i: int) -> int {
    fx_add_spec(
        fx_add_spec(
            fx_add_spec(
                fx_mul_spec(hcoord(v, 0), q[i]),
                fx_mul_spec(hcoord(v, 1), q[4 + i]),
            ),
            fx_mul_spec(hcoord(v, 2), q[8 + i]),
        ),
        fx_mul_spec(hcoord(v, 3), q[12 + i]),
    )
}

/// The quadratic form `v Q v^T` for a row-major matrix.
pub open spec fn quad_eval_seq(q: Seq<int>, v: Vct) -> int {
    fx_add_spec(
        fx_add_spec(
            fx_add_spec(
                fx_mul_spec(col_dot_seq(q, v, 0), hcoord(v, 0)),
                fx_mul_spec(col_dot_seq(q, v, 1), hcoord(v, 1)),
            ),
            fx_mul_spec(col_dot_seq(q, v, 2), hcoord(v, 2)),
        ),
        fx_mul_spec(col_dot_seq(q, v, 3), hcoord(v, 3)),
    )
}

/// The entries of `q` with the last row forced to `(0, 0, 0, 1)`,
/// row-major: the matrix the merge-point solve inverts.
pub open spec fn split_seq(q: Mat) -> Seq<int> {
    Seq::new(
        16,
        |k: int|
            if k / 4 == 3 {
                id_spec(3, k % 4)
            } else {
                q.m[k / 4][k % 4] as int
            },
    )
}

/// The whole inversion pipeline on a row-major matrix: Gauss-Jordan
/// elimination with partial pivoting — `None` exactly when some column's
/// best remaining pivot magnitude falls at or below the tolerance — then
/// row normalization, then the residual check, which keeps only an inverse
/// that reproduces the identity within the tolerance.
pub open spec fn checked_inverse_seq(s: Seq<int>) -> Option<Seq<int>> {
    match gauss_phase_spec(s, id_seq(), 0) {
        Option::None => Option::None,
        Option::Some(p) => {
            let nb = normalize_spec(p.0, p.1);
            if seq_residual_ok(s, nb) {
                Option::Some(nb)
            } else {
                Option::None
            }
        },
    }
}

impl Mat {
    /// The zero matrix.
    pub fn zero() -> (r: Self)
        ensures
            forall|i: int, j: int| 0 <= i < 4 && 0 <= j < 4 ==> r.m[i][j] == 0,
    {
        Self { m: [[0, 0, 0, 0], [0, 0, 0, 0], [0, 0, 0, 0], [0, 0, 0, 0]] }
    }

    pub fn identity() -> (r: Self)
        ensures
            forall|i: int, j: int| 0 <= i < 4 && 0 <= j < 4 ==> r.m[i][j] == id_spec(i, j),
    {
        Self {
            m: [
                [FX_ONE, 0, 0, 0],
                [0, FX_ONE, 0, 0],
                [0, 0, FX_ONE, 0],
                [0, 0, 0, FX_ONE],
            ],
        }
    }

    /// Elementwise sum.
    pub fn add(&self, rhs: &Mat) -> (r: Self)
        ensures
            forall|i: int, j: int|
                0 <= i < 4 && 0 <= j < 4 ==> r.m[i][j] == fx_add_spec(
                    self.m[i][j] as int,
                    rhs.m[i][j] as int,
                ),
    {
        let mut r = Mat::zero();
        let mut i: usize = 0;
        while i < 4
            invariant
                i <= 4,
                forall|a: int, b: int|
                    0 <= a < i && 0 <= b < 4 ==> r.m[a][b] == fx_add_spec(
                        self.m[a][b] as int,
                        rhs.m[a][b] as int,
                    ),
            decreases 4 - i,
        {
            let mut j: usize = 0;
            while j < 4
                invariant
                    i < 4,
                    j <= 4,
                    forall|a: int, b: int|
                        0 <= a < i && 0 <= b < 4 ==> r.m[a][b] == fx_add_spec(
                            self.m[a][b] as int,
                            rhs.m[a][b] as int,
                        ),
                    forall|b: int|
                        0 <= b < j ==> r.m[i as int][b] == fx_add_spec(
                            self.m[i as int][b] as int,
                            rhs.m[i as int][b] as int,
                        ),
                decreases 4 - j,
            {
                r.m[i][j] = fx_add(self.m[i][j], rhs.m[i][j]);
                j = j + 1;
            }
            i = i + 1;
        }
        r
    }

    /// Elementwise difference.
    pub fn sub(&self, rhs: &Mat) -> (r: Self)
        ensures
            forall|i: int, j: int|
                0 <= i < 4 && 0 <= j < 4 ==> r.m[i][j] == fx_sub_spec(
                    self.m[i][j] as int,
                    rhs.m[i][j] as int,
                ),
    {
        let mut r = Mat::zero();
        let mut i: usize = 0;
        while i < 4
            invariant
                i <= 4,
                forall|a: int, b: int|
                    0 <= a < i && 0 <= b < 4 ==> r.m[a][b] == fx_sub_spec(
                        self.m[a][b] as int,
                        rhs.m[a][b] as int,
                    ),
            decreases 4 - i,
        {
            let mut j: usize = 0;
            while j < 4
                invariant
                    i < 4,
                    j <= 4,
                    forall|a: int, b: int|
                        0 <= a < i && 0 <= b < 4 ==> r.m[a][b] == fx_sub_spec(
                            self.m[a][b] as int,
                            rhs.m[a][b] as int,
                        ),
                    forall|b: int|
                        0 <= b < j ==> r.m[i as int][b] == fx_sub_spec(
                            self.m[i as int][b] as int,
                            rhs.m[i as int][b] as int,
                        ),
                decreases 4 - j,
            {
                r.m[i][j] = fx_sub(self.m[i][j], rhs.m[i][j]);
                j = j + 1;
            }
            i = i + 1;
        }
        r
    }

    /// One entry of the matrix product.
    fn mul_entry(&self, rhs: &Mat, i: usize, j: usize) -> (r: i64)
        requires
            i < 4,
            j < 4,
        ensures
            r == mul_entry_spec(*self, *rhs, i as int, j as int),
    {
        fx_add(
            fx_add(
                fx_add(
                    fx_mul(self.m[i][0], rhs.m[0][j]),
                    fx_mul(self.m[i][1], rhs.m[1][j]),
                ),
                fx_mul(self.m[i][2], rhs.m[2][j]),
            ),
            fx_mul(self.m[i][3], rhs.m[3][j]),
        )
    }

    /// Matrix product.
    pub fn mul(&self, rhs: &Mat) -> (r: Self)
        ensures
            forall|i: int, j: int|
                0 <= i < 4 && 0 <= j < 4 ==> r.m[i][j] == mul_entry_spec(*self, *rhs, i, j),
    {
        let mut r = Mat::zero();
        let mut i: usize = 0;
        while i < 4
            invariant
                i <= 4,
                forall|a: int, b: int|
                    0 <= a < i && 0 <= b < 4 ==> r.m[a][b] == mul_entry_spec(*self, *rhs, a, b),
            decreases 4 - i,
        {
            let mut j: usize = 0;
            while j < 4
                invariant
                    i < 4,
                    j <= 4,
                    forall|a: int, b: int|
                        0 <= a < i && 0 <= b < 4 ==> r.m[a][b] == mul_entry_spec(
                            *self,
                            *rhs,
                            a,
                            b,
                        ),
                    forall|b: int|
                        0 <= b < j ==> r.m[i as int][b] == mul_entry_spec(
                            *self,
                            *rhs,
                            i as int,
                            b,
                        ),
                decreases 4 - j,
            {
                r.m[i][j] = self.mul_entry(rhs, i, j);
                j = j + 1;
            }
            i = i + 1;
        }
        r
    }

    /// The quadratic form `v Q v^T` with `v` extended homogeneously.
    pub fn multiply_by_vct(&self, v: Vct) -> (r: i64)
        ensures
            r == quad_eval_spec(*self, v),
    {
        let t0: i64 = fx_add(
            fx_add(
                fx_add(fx_mul(v.coord(0), self.m[0][0]), fx_mul(v.coord(1), self.m[1][0])),
                fx_mul(v.coord(2), self.m[2][0]),
            ),
            fx_mul(v.coord(3), self.m[3][0]),
        );
        let t1: i64 = fx_add(
            fx_add(
                fx_add(fx_mul(v.coord(0), self.m[0][1]), fx_mul(v.coord(1), self.m[1][1])),
                fx_mul(v.coord(2), self.m[2][1]),
            ),
            fx_mul(v.coord(3), self.m[3][1]),
        );
        let t2: i64 = fx_add(
            fx_add(
                fx_add(fx_mul(v.coord(0), self.m[0][2]), fx_mul(v.coord(1), self.m[1][2])),
                fx_mul(v.coord(2), self.m[2][2]),
            ),
            fx_mul(v.coord(3), self.m[3][2]),
        );
        let t3: i64 = fx_add(
            fx_add(
                fx_add(fx_mul(v.coord(0), self.m[0][3]), fx_mul(v.coord(1), self.m[1][3])),
                fx_mul(v.coord(2), self.m[2][3]),
            ),
            fx_mul(v.coord(3), self.m[3][3]),
        );
        fx_add(
            fx_add(
                fx_add(fx_mul(t0, v.coord(0)), fx_mul(t1, v.coord(1))),
                fx_mul(t2, v.coord(2)),
            ),
            fx_mul(t3, v.coord(3)),
        )
    }

    /// A copy with the last row forced to `(0, 0, 0, 1)`, which makes the
    /// matrix a candidate for inversion even when the raw quadric is
    /// rank-deficient in that row.
    pub fn split(&self) -> (r: Self)
        ensures
            forall|i: int, j: int| 0 <= i < 3 && 0 <= j < 4 ==> r.m[i][j] == self.m[i][j],
            r.m[3][0] == 0,
            r.m[3][1] == 0,
            r.m[3][2] == 0,
            r.m[3][3] == FX_ONE,
    {
        let mut r = *self;
        r.m[3][0] = 0;
        r.m[3][1] = 0;
        r.m[3][2] = 0;
        r.m[3][3] = FX_ONE;
        r
    }

    /// Gauss-Jordan inversion with partial pivoting, then a residual
    /// check. The result is exactly `checked_inverse_seq` on the entries:
    /// `None` comes precisely when elimination meets a pivot at or below
    /// the tolerance or the computed inverse fails to reproduce the
    /// identity within it, and a returned inverse is that computation's
    /// outcome, which reproduces the identity entrywise within the
    /// tolerance.
    pub fn inverse(&self) -> (r: Option<Mat>)
        ensures
            r is Some <==> checked_inverse_seq(mat_seq(*self)) is Some,
            r is Some ==> mat_seq(r->Some_0) == checked_inverse_seq(mat_seq(*self))->Some_0,
            r is Some ==> forall|i: int, j: int|
                0 <= i < 4 && 0 <= j < 4 ==> abs_int(
                    fx_sub_spec(mul_entry_spec(*self, r->Some_0, i, j), id_spec(i, j)),
                ) < FX_EPS,
    {
        let mut a = *self;
        let mut b = Mat::identity();
        proof {
            assert(mat_seq(b) =~= id_seq());
            assert(mat_seq(a) =~= mat_seq(*self));
        }
        let mut x: usize = 0;
        while x < 4
            invariant
                x <= 4,
                gauss_phase_spec(mat_seq(*self), id_seq(), 0) == gauss_phase_spec(
                    mat_seq(a),
                    mat_seq(b),
                    x as int,
                ),
            decreases 4 - x,
        {
            let mut z: usize = x;
            let mut i: usize = x + 1;
            proof {
                assert(z as int == pivot_spec(mat_seq(a), x as int, x as int + 1));
            }
            while i < 4
                invariant
                    x < 4,
                    x + 1 <= i <= 4,
                    x <= z < i,
                    z as int == pivot_spec(mat_seq(a), x as int, i as int),
                decreases 4 - i,
            {
                proof {
                    assert(mat_seq(a)[i as int * 4 + x as int] == a.m[i as int][x as int]);
                    assert(mat_seq(a)[z as int * 4 + x as int] == a.m[z as int][x as int]);
                }
                if fx_abs(a.m[i][x]) > fx_abs(a.m[z][x]) {
                    z = i;
                }
                i = i + 1;
            }
            proof {
                assert(mat_seq(a)[z as int * 4 + x as int] == a.m[z as int][x as int]);
            }
            if fx_abs(a.m[z][x]) <= FX_EPS {
                proof {
                    assert(gauss_phase_spec(mat_seq(a), mat_seq(b), x as int) is None);
                    assert(checked_inverse_seq(mat_seq(*self)) is None);
                }
                return Option::None;
            }
            let a1 = apply_swap(&a, z, x, x);
            let b1 = apply_swap(&b, z, x, 0);
            let a2 = apply_elim_rows(&a1, x);
            let b2 = apply_elim_acc(&a1, &b1, x);
            proof {
                assert(gauss_phase_spec(mat_seq(a), mat_seq(b), x as int) == gauss_phase_spec(
                    mat_seq(a2),
                    mat_seq(b2),
                    x as int + 1,
                ));
            }
            a = a2;
            b = b2;
            x = x + 1;
        }
        let ghost b_pre = mat_seq(b);
        let b = apply_norm(&a, &b);
        proof {
            assert(gauss_phase_spec(mat_seq(*self), id_seq(), 0) == Option::Some(
                (mat_seq(a), b_pre),
            )) by {
                assert(gauss_phase_spec(mat_seq(a), b_pre, 4) == Option::Some(
                    (mat_seq(a), b_pre),
                ));
            }
        }
        // Residual check: accept the computed inverse only if it reproduces
        // the identity within the tolerance.
        let p = self.mul(&b);
        proof {
            assert forall|i: int, j: int| 0 <= i < 4 && 0 <= j < 4 implies seq_mul_entry(
                mat_seq(*self),
                mat_seq(b),
                i,
                j,
            ) == mul_entry_spec(*self, b, i, j) by {
                assert(mat_seq(b)[j] == b.m[0][j]);
                assert(mat_seq(b)[4 + j] == b.m[1][j]);
                assert(mat_seq(b)[8 + j] == b.m[2][j]);
                assert(mat_seq(b)[12 + j] == b.m[3][j]);
                assert(mat_seq(*self)[i * 4] == self.m[i][0]);
                assert(mat_seq(*self)[i * 4 + 1] == self.m[i][1]);
                assert(mat_seq(*self)[i * 4 + 2] == self.m[i][2]);
                assert(mat_seq(*self)[i * 4 + 3] == self.m[i][3]);
            }
        }
        let mut i: usize = 0;
        while i < 4
            invariant
                i <= 4,
                gauss_phase_spec(mat_seq(*self), id_seq(), 0) == Option::Some(
                    (mat_seq(a), b_pre),
                ),
                mat_seq(b) == normalize_spec(mat_seq(a), b_pre),
                forall|c: int, d: int|
                    0 <= c < i && 0 <= d < 4 ==> abs_int(
                        fx_sub_spec(mul_entry_spec(*self, b, c, d), id_spec(c, d)),
                    ) < FX_EPS,
                forall|c: int, d: int|
                    0 <= c < 4 && 0 <= d < 4 ==> p.m[c][d] == mul_entry_spec(*self, b, c, d),
                forall|c: int, d: int|
                    0 <= c < 4 && 0 <= d < 4 ==> seq_mul_entry(mat_seq(*self), mat_seq(b), c, d)
                        == mul_entry_spec(*self, b, c, d),
            decreases 4 - i,
        {
            let mut j: usize = 0;
            while j < 4
                invariant
                    i < 4,
                    j <= 4,
                    gauss_phase_spec(mat_seq(*self), id_seq(), 0) == Option::Some(
                        (mat_seq(a), b_pre),
                    ),
                    mat_seq(b) == normalize_spec(mat_seq(a), b_pre),
                    forall|c: int, d: int|
                        0 <= c < i && 0 <= d < 4 ==> abs_int(
                            fx_sub_spec(mul_entry_spec(*self, b, c, d), id_spec(c, d)),
                        ) < FX_EPS,
                    forall|d: int|
                        0 <= d < j ==> abs_int(
                            fx_sub_spec(mul_entry_spec(*self, b, i as int, d), id_spec(i as int, d)),
                        ) < FX_EPS,
                    forall|c: int, d: int|
                        0 <= c < 4 && 0 <= d < 4 ==> p.m[c][d] == mul_entry_spec(*self, b, c, d),
                    forall|c: int, d: int|
                        0 <= c < 4 && 0 <= d < 4 ==> seq_mul_entry(mat_seq(*self), mat_seq(b), c, d)
                            == mul_entry_spec(*self, b, c, d),
                decreases 4 - j,
            {
                let target: i64 = if i == j {
                    FX_ONE
                } else {
                    0
                };
                let diff = fx_sub(p.m[i][j], target);
                let mag = fx_abs(diff);
                if mag >= FX_EPS {
                    proof {
                        assert(p.m[i as int][j as int] == mul_entry_spec(
                            *self,
                            b,
                            i as int,
                            j as int,
                        ));
                        assert(target == id_spec(i as int, j as int));
                        assert(diff == fx_sub_spec(
                            mul_entry_spec(*self, b, i as int, j as int),
                            id_spec(i as int, j as int),
                        ));
                        assert(abs_int(diff as int) >= FX_EPS);
                        assert(abs_int(
                            fx_sub_spec(
                                seq_mul_entry(mat_seq(*self), mat_seq(b), i as int, j as int),
                                id_spec(i as int, j as int),
                            ),
                        ) >= FX_EPS);
                        assert(!seq_residual_ok(mat_seq(*self), mat_seq(b)));
                        assert(checked_inverse_seq(mat_seq(*self)) is None);
                    }
                    return Option::None;
                }
                j = j + 1;
            }
            i = i + 1;
        }
        proof {
            assert(seq_residual_ok(mat_seq(*self), mat_seq(b)));
            assert(checked_inverse_seq(mat_seq(*self)) == Option::Some(mat_seq(b)));
        }
        Option::Some(b)
    }
}

/// Rows `r1` and `r2` of `s` exchanged from column `lo` on.
fn apply_swap(s: &Mat, r1: usize, r2: usize, lo: usize) -> (r: Mat)
    requires
        r1 < 4,
        r2 < 4,
        lo < 4,
    ensures
        mat_seq(r) == swap_rows_spec(mat_seq(*s), r1 as int, r2 as int, lo as int),
{
    let mut r = Mat::zero();
    let mut i: usize = 0;
    while i < 4
        invariant
            i <= 4,
            r1 < 4,
            r2 < 4,
            forall|c: int, d: int|
                0 <= c < i && 0 <= d < 4 ==> r.m[c][d] == (if c == r1 && d >= lo {
                    s.m[r2 as int][d]
                } else if c == r2 && d >= lo {
                    s.m[r1 as int][d]
                } else {
                    s.m[c][d]
                }),
        decreases 4 - i,
    {
        let mut j: usize = 0;
        while j < 4
            invariant
                i < 4,
                j <= 4,
                r1 < 4,
                r2 < 4,
                forall|c: int, d: int|
                    0 <= c < i && 0 <= d < 4 ==> r.m[c][d] == (if c == r1 && d >= lo {
                        s.m[r2 as int][d]
                    } else if c == r2 && d >= lo {
                        s.m[r1 as int][d]
                    } else {
                        s.m[c][d]
                    }),
                forall|d: int|
                    0 <= d < j ==> r.m[i as int][d] == (if i == r1 && d >= lo {
                        s.m[r2 as int][d]
                    } else if i == r2 && d >= lo {
                        s.m[r1 as int][d]
                    } else {
                        s.m[i as int][d]
                    }),
            decreases 4 - j,
        {
            r.m[i][j] = if i == r1 && j >= lo {
                s.m[r2][j]
            } else if i == r2 && j >= lo {
                s.m[r1][j]
            } else {
                s.m[i][j]
            };
            j = j + 1;
        }
        i = i + 1;
    }
    proof {
        assert(mat_seq(r) =~= swap_rows_spec(mat_seq(*s), r1 as int, r2 as int, lo as int));
    }
    r
}

/// The elimination sweep of column `x` on the working matrix.
fn apply_elim_rows(a: &Mat, x: usize) -> (r: Mat)
    requires
        x < 4,
    ensures
        mat_seq(r) == elim_rows_spec(mat_seq(*a), x as int),
{
    let inv: i64 = crate::fx::fx_div(fx_neg(FX_ONE), a.m[x][x]);
    let mut r = Mat::zero();
    let mut i: usize = 0;
    while i < 4
        invariant
            i <= 4,
            x < 4,
            inv == fx_div_spec(fx_neg_spec(FX_ONE as int), a.m[x as int][x as int] as int),
            forall|c: int, d: int|
                0 <= c < i && 0 <= d < 4 ==> r.m[c][d] == (if c != x && d >= x {
                    fx_add_spec(
                        a.m[c][d] as int,
                        fx_mul_spec(
                            fx_mul_spec(inv as int, a.m[c][x as int] as int),
                            a.m[x as int][d] as int,
                        ),
                    )
                } else {
                    a.m[c][d] as int
                }),
        decreases 4 - i,
    {
        let d0: i64 = fx_mul(inv, a.m[i][x]);
        let mut j: usize = 0;
        while j < 4
            invariant
                i < 4,
                j <= 4,
                x < 4,
                inv == fx_div_spec(fx_neg_spec(FX_ONE as int), a.m[x as int][x as int] as int),
                d0 == fx_mul_spec(inv as int, a.m[i as int][x as int] as int),
                forall|c: int, d: int|
                    0 <= c < i && 0 <= d < 4 ==> r.m[c][d] == (if c != x && d >= x {
                        fx_add_spec(
                            a.m[c][d] as int,
                            fx_mul_spec(
                                fx_mul_spec(inv as int, a.m[c][x as int] as int),
                                a.m[x as int][d] as int,
                            ),
                        )
                    } else {
                        a.m[c][d] as int
                    }),
                forall|d: int|
                    0 <= d < j ==> r.m[i as int][d] == (if i != x && d >= x {
                        fx_add_spec(
                            a.m[i as int][d] as int,
                            fx_mul_spec(
                                fx_mul_spec(inv as int, a.m[i as int][x as int] as int),
                                a.m[x as int][d] as int,
                            ),
                        )
                    } else {
                        a.m[i as int][d] as int
                    }),
            decreases 4 - j,
        {
            r.m[i][j] = if i != x && j >= x {
                fx_add(a.m[i][j], fx_mul(d0, a.m[x][j]))
            } else {
                a.m[i][j]
            };
            j = j + 1;
        }
        i = i + 1;
    }
    proof {
        assert(mat_seq(r) =~= elim_rows_spec(mat_seq(*a), x as int));
    }
    r
}

/// The elimination sweep of column `x` on the accumulating inverse.
fn apply_elim_acc(a: &Mat, b: &Mat, x: usize) -> (r: Mat)
    requires
        x < 4,
    ensures
        mat_seq(r) == elim_acc_spec(mat_seq(*a), mat_seq(*b), x as int),
{
    let inv: i64 = crate::fx::fx_div(fx_neg(FX_ONE), a.m[x][x]);
    let mut r = Mat::zero();
    let mut i: usize = 0;
    while i < 4
        invariant
            i <= 4,
            x < 4,
            inv == fx_div_spec(fx_neg_spec(FX_ONE as int), a.m[x as int][x as int] as int),
            forall|c: int, d: int|
                0 <= c < i && 0 <= d < 4 ==> r.m[c][d] == (if c != x {
                    fx_add_spec(
                        b.m[c][d] as int,
                        fx_mul_spec(
                            fx_mul_spec(inv as int, a.m[c][x as int] as int),
                            b.m[x as int][d] as int,
                        ),
                    )
                } else {
                    b.m[c][d] as int
                }),
        decreases 4 - i,
    {
        let d0: i64 = fx_mul(inv, a.m[i][x]);
        let mut j: usize = 0;
        while j < 4
            invariant
                i < 4,
                j <= 4,
                x < 4,
                inv == fx_div_spec(fx_neg_spec(FX_ONE as int), a.m[x as int][x as int] as int),
                d0 == fx_mul_spec(inv as int, a.m[i as int][x as int] as int),
                forall|c: int, d: int|
                    0 <= c < i && 0 <= d < 4 ==> r.m[c][d] == (if c != x {
                        fx_add_spec(
                            b.m[c][d] as int,
                            fx_mul_spec(
                                fx_mul_spec(inv as int, a.m[c][x as int] as int),
                                b.m[x as int][d] as int,
                            ),
                        )
                    } else {
                        b.m[c][d] as int
                    }),
                forall|d: int|
                    0 <= d < j ==> r.m[i as int][d] == (if i != x {
                        fx_add_spec(
                            b.m[i as int][d] as int,
                            fx_mul_spec(
                                fx_mul_spec(inv as int, a.m[i as int][x as int] as int),
                                b.m[x as int][d] as int,
                            ),
                        )
                    } else {
                        b.m[i as int][d] as int
                    }),
            decreases 4 - j,
        {
            r.m[i][j] = if i != x {
                fx_add(b.m[i][j], fx_mul(d0, b.m[x][j]))
            } else {
                b.m[i][j]
            };
            j = j + 1;
        }
        i = i + 1;
    }
    proof {
        assert(mat_seq(r) =~= elim_acc_spec(mat_seq(*a), mat_seq(*b), x as int));
    }
    r
}

/// Each row of the accumulated inverse divided by its diagonal pivot.
fn apply_norm(a: &Mat, b: &Mat) -> (r: Mat)
    ensures
        mat_seq(r) == normalize_spec(mat_seq(*a), mat_seq(*b)),
{
    let mut r = Mat::zero();
    let mut i: usize = 0;
    while i < 4
        invariant
            i <= 4,
            forall|c: int, d: int|
                0 <= c < i && 0 <= d < 4 ==> r.m[c][d] == fx_mul_spec(
                    b.m[c][d] as int,
                    fx_div_spec(FX_ONE as int, a.m[c][c] as int),
                ),
        decreases 4 - i,
    {
        let inv: i64 = crate::fx::fx_div(FX_ONE, a.m[i][i]);
        let mut j: usize = 0;
        while j < 4
            invariant
                i < 4,
                j <= 4,
                inv == fx_div_spec(FX_ONE as int, a.m[i as int][i as int] as int),
                forall|c: int, d: int|
                    0 <= c < i && 0 <= d < 4 ==> r.m[c][d] == fx_mul_spec(
                        b.m[c][d] as int,
                        fx_div_spec(FX_ONE as int, a.m[c][c] as int),
                    ),
                forall|d: int|
                    0 <= d < j ==> r.m[i as int][d] == fx_mul_spec(
                        b.m[i as int][d] as int,
                        fx_div_spec(FX_ONE as int, a.m[i as int][i as int] as int),
                    ),
            decreases 4 - j,
        {
            r.m[i][j] = fx_mul(b.m[i][j], inv);
            j = j + 1;
        }
        i = i + 1;
    }
    proof {
        assert(mat_seq(r) =~= normalize_spec(mat_seq(*a), mat_seq(*b)));
    }
    r
}

} // verus!
