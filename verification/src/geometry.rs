//! Points, directions and square matrices as containers of numbers: how they
//! are built, read, transposed and cut down. What is computed with their
//! numbers is left to the caller.

use crate::scalar::Scalar;
use crate::scalar::ONE_BITS;
use crate::util::near_zero;
use crate::util::negligible;
use vstd::prelude::*;

verus! {

/// Four numbers `x`, `y`, `z` and `w`; `w` is 1 for a point and 0 for a
/// direction.
#[derive(Clone, Copy, Debug, PartialEq, Eq)]
pub struct Vec4 {
    pub elements: [Scalar; 4],
}

/// Two rows of two numbers, row by row.
#[derive(Clone, Copy, Debug, PartialEq, Eq)]
pub struct Matrix2x2 {
    pub mat: [Scalar; 4],
}

/// Three rows of three numbers, row by row.
#[derive(Clone, Copy, Debug, PartialEq, Eq)]
pub struct Matrix3x3 {
    pub mat: [Scalar; 9],
}

/// Four rows of four numbers, row by row.
#[derive(Clone, Copy, Debug, PartialEq, Eq)]
pub struct Matrix4x4 {
    pub mat: [Scalar; 16],
}

/// Why a transform is refused.
#[derive(Clone, Copy, Debug, PartialEq, Eq, Structural)]
pub enum TransformError {
    /// The determinant counts as zero, so the transform has no inverse.
    DegenerateTransform,
}

/// Accepts a transform by its determinant, or refuses it as degenerate: a
/// matrix can be inverted where its determinant does not count as zero.
pub fn check_invertible(determinant: &Scalar) -> (r: Result<(), TransformError>)
    ensures
        r is Ok <==> !negligible(*determinant),
        r is Err ==> r == Err::<(), TransformError>(TransformError::DegenerateTransform),
{
    if near_zero(determinant) {
        Err(TransformError::DegenerateTransform)
    } else {
        Ok(())
    }
}

/// The cofactor at row `row` and column `col` from the minor there: the
/// minor itself where `row + col` is even, and its opposite where it is odd.
pub fn cofactor(minor: Scalar, row: usize, col: usize) -> (c: Scalar)
    requires
        row < 4,
        col < 4,
    ensures
        c == (if (row + col) % 2 == 0 {
            minor
        } else {
            minor.negated()
        }),
{
    if (row + col) % 2 != 0 {
        return minor.neg();
    }
    minor
}

/// The pattern of the number zero.
pub open spec fn zero() -> Scalar {
    Scalar { bits: 0 }
}

/// The pattern of the number one.
pub open spec fn one() -> Scalar {
    Scalar { bits: ONE_BITS }
}

/// The place in a matrix that place `i` of its submatrix is taken from, in a
/// row or a column, when the one at `gone` is left out.
pub open spec fn kept(i: int, gone: int) -> int {
    if i < gone {
        i
    } else {
        i + 1
    }
}

/// The matrix of `n` rows and columns that holds `diagonal` from corner to
/// corner and zero elsewhere, row by row.
pub open spec fn diagonal_matrix(n: int, diagonal: Seq<Scalar>) -> Seq<Scalar> {
    Seq::new(
        (n * n) as nat,
        |i: int|
            if i / n == i % n {
                diagonal[i / n]
            } else {
                zero()
            },
    )
}

/// The `side` rows and columns of `m` flipped over its diagonal, row by row.
pub open spec fn transposed(m: Seq<Scalar>, side: int) -> Seq<Scalar> {
    Seq::new(m.len(), |i: int| m[(i % side) * side + i / side])
}

/// What is left of the `side` rows and columns of `m` without row `row` and
/// column `col`, row by row.
pub open spec fn without(m: Seq<Scalar>, side: int, row: int, col: int) -> Seq<Scalar> {
    Seq::new(
        ((side - 1) * (side - 1)) as nat,
        |i: int| m[kept(i / (side - 1), row) * side + kept(i % (side - 1), col)],
    )
}

fn keep(i: usize, gone: usize) -> (k: usize)
    requires
        i < 4,
    ensures
        k == kept(i as int, gone as int),
{
    if i < gone {
        i
    } else {
        i + 1
    }
}

impl Vec4 {
    /// The point at `x`, `y`, `z`.
    pub fn point(x: Scalar, y: Scalar, z: Scalar) -> (p: Vec4)
        ensures
            p.elements@ == seq![x, y, z, one()],
    {
        let p = Vec4 { elements: [x, y, z, Scalar::one()] };
        assert(p.elements@ =~= seq![x, y, z, one()]);
        p
    }

    /// The direction along `x`, `y`, `z`.
    pub fn vector(x: Scalar, y: Scalar, z: Scalar) -> (v: Vec4)
        ensures
            v.elements@ == seq![x, y, z, zero()],
    {
        let v = Vec4 { elements: [x, y, z, Scalar::zero()] };
        assert(v.elements@ =~= seq![x, y, z, zero()]);
        v
    }

    pub fn raw(x: Scalar, y: Scalar, z: Scalar, w: Scalar) -> (v: Vec4)
        ensures
            v.elements@ == seq![x, y, z, w],
    {
        let v = Vec4 { elements: [x, y, z, w] };
        assert(v.elements@ =~= seq![x, y, z, w]);
        v
    }

    /// The opposite: each of the four numbers with its sign turned.
    pub fn neg(&self) -> (v: Vec4)
        ensures
            v.elements@ == seq![
                self.elements@[0].negated(),
                self.elements@[1].negated(),
                self.elements@[2].negated(),
                self.elements@[3].negated(),
            ],
    {
        let v = Vec4 {
            elements: [
                self.elements[0].neg(),
                self.elements[1].neg(),
                self.elements[2].neg(),
                self.elements[3].neg(),
            ],
        };
        assert(v.elements@ =~= seq![
            self.elements@[0].negated(),
            self.elements@[1].negated(),
            self.elements@[2].negated(),
            self.elements@[3].negated(),
        ]);
        v
    }

    pub fn x(&self) -> (x: &Scalar)
        ensures
            *x == self.elements@[0],
    {
        &self.elements[0]
    }

    pub fn y(&self) -> (y: &Scalar)
        ensures
            *y == self.elements@[1],
    {
        &self.elements[1]
    }

    pub fn z(&self) -> (z: &Scalar)
        ensures
            *z == self.elements@[2],
    {
        &self.elements[2]
    }

    pub fn w(&self) -> (w: &Scalar)
        ensures
            *w == self.elements@[3],
    {
        &self.elements[3]
    }
}

impl Matrix2x2 {
    pub fn new(mat: [Scalar; 4]) -> (m: Matrix2x2)
        ensures
            m.mat == mat,
    {
        Matrix2x2 { mat }
    }

    /// The number in row `r` and column `c`.
    pub fn get(&self, r: usize, c: usize) -> (x: &Scalar)
        requires
            c + r * 2 < 4,
        ensures
            *x == self.mat@[c + r * 2],
    {
        &self.mat[c + r * 2]
    }
}

impl Matrix3x3 {
    pub fn new(mat: [Scalar; 9]) -> (m: Matrix3x3)
        ensures
            m.mat == mat,
    {
        Matrix3x3 { mat }
    }

    /// The number in row `r` and column `c`.
    pub fn get(&self, r: usize, c: usize) -> (x: &Scalar)
        requires
            c + r * 3 < 9,
        ensures
            *x == self.mat@[c + r * 3],
    {
        &self.mat[c + r * 3]
    }

    /// The matrix without row `row` and column `col`.
    pub fn submatrix(&self, row: usize, col: usize) -> (sub: Matrix2x2)
        requires
            row < 3,
            col < 3,
        ensures
            sub.mat@ == without(self.mat@, 3, row as int, col as int),
    {
        let r0: usize = keep(0, row);
        let r1: usize = keep(1, row);
        let c0: usize = keep(0, col);
        let c1: usize = keep(1, col);
        let sub = Matrix2x2 {
            mat: [*self.get(r0, c0), *self.get(r0, c1), *self.get(r1, c0), *self.get(r1, c1)],
        };
        assert(sub.mat@ =~= without(self.mat@, 3, row as int, col as int));
        sub
    }
}

impl Matrix4x4 {
    pub fn new(mat: [Scalar; 16]) -> (m: Matrix4x4)
        ensures
            m.mat == mat,
    {
        Matrix4x4 { mat }
    }

    /// The matrix that leaves every point and direction as it is.
    pub fn identity() -> (m: Matrix4x4)
        ensures
            m.mat@ == diagonal_matrix(4, seq![one(), one(), one(), one()]),
    {
        let i = Scalar::one();
        let o = Scalar::zero();
        let m = Matrix4x4 { mat: [i, o, o, o, o, i, o, o, o, o, i, o, o, o, o, i] };
        assert(m.mat@ =~= diagonal_matrix(4, seq![one(), one(), one(), one()]));
        m
    }

    /// The number in row `r` and column `c`.
    pub fn get(&self, r: usize, c: usize) -> (x: &Scalar)
        requires
            c + r * 4 < 16,
        ensures
            *x == self.mat@[c + r * 4],
    {
        &self.mat[c + r * 4]
    }

    /// The matrix flipped over its diagonal.
    pub fn transpose(&self) -> (t: Matrix4x4)
        ensures
            t.mat@ == transposed(self.mat@, 4),
    {
        let t = Matrix4x4 {
            mat: [
                *self.get(0, 0),
                *self.get(1, 0),
                *self.get(2, 0),
                *self.get(3, 0),
                *self.get(0, 1),
                *self.get(1, 1),
                *self.get(2, 1),
                *self.get(3, 1),
                *self.get(0, 2),
                *self.get(1, 2),
                *self.get(2, 2),
                *self.get(3, 2),
                *self.get(0, 3),
                *self.get(1, 3),
                *self.get(2, 3),
                *self.get(3, 3),
            ],
        };
        assert(t.mat@ =~= transposed(self.mat@, 4));
        t
    }

    /// The matrix without row `row` and column `col`.
    pub fn submatrix(&self, row: usize, col: usize) -> (sub: Matrix3x3)
        requires
            row < 4,
            col < 4,
        ensures
            sub.mat@ == without(self.mat@, 4, row as int, col as int),
    {
        let r0: usize = keep(0, row);
        let r1: usize = keep(1, row);
        let r2: usize = keep(2, row);
        let c0: usize = keep(0, col);
        let c1: usize = keep(1, col);
        let c2: usize = keep(2, col);
        let sub = Matrix3x3 {
            mat: [
                *self.get(r0, c0),
                *self.get(r0, c1),
                *self.get(r0, c2),
                *self.get(r1, c0),
                *self.get(r1, c1),
                *self.get(r1, c2),
                *self.get(r2, c0),
                *self.get(r2, c1),
                *self.get(r2, c2),
            ],
        };
        assert(sub.mat@ =~= without(self.mat@, 4, row as int, col as int));
        sub
    }

    /// The matrix that moves a point by `x`, `y`, `z`.
    pub fn translation(x: Scalar, y: Scalar, z: Scalar) -> (m: Matrix4x4)
        ensures
            m.mat@ == diagonal_matrix(4, seq![one(), one(), one(), one()]).update(3, x).update(
                7,
                y,
            ).update(11, z),
    {
        let i = Scalar::one();
        let o = Scalar::zero();
        let m = Matrix4x4 { mat: [i, o, o, x, o, i, o, y, o, o, i, z, o, o, o, i] };
        assert(m.mat@ =~= diagonal_matrix(4, seq![one(), one(), one(), one()]).update(
            3,
            x,
        ).update(7, y).update(11, z));
        m
    }

    /// The matrix that stretches by `x`, `y`, `z` along the axes.
    pub fn scale(x: Scalar, y: Scalar, z: Scalar) -> (m: Matrix4x4)
        ensures
            m.mat@ == diagonal_matrix(4, seq![x, y, z, one()]),
    {
        let i = Scalar::one();
        let o = Scalar::zero();
        let m = Matrix4x4 { mat: [x, o, o, o, o, y, o, o, o, o, z, o, o, o, o, i] };
        assert(m.mat@ =~= diagonal_matrix(4, seq![x, y, z, one()]));
        m
    }

    /// The matrix that moves each coordinate in proportion to the two others:
    /// `xy` is how much `x` moves with `y`, and so on.
    pub fn shearing(xy: Scalar, xz: Scalar, yx: Scalar, yz: Scalar, zx: Scalar, zy: Scalar) -> (m:
        Matrix4x4)
        ensures
            m.mat@ == diagonal_matrix(4, seq![one(), one(), one(), one()]).update(1, xy).update(
                2,
                xz,
            ).update(4, yx).update(6, yz).update(8, zx).update(9, zy),
    {
        let i = Scalar::one();
        let o = Scalar::zero();
        let m = Matrix4x4 { mat: [i, xy, xz, o, yx, i, yz, o, zx, zy, i, o, o, o, o, i] };
        assert(m.mat@ =~= diagonal_matrix(4, seq![one(), one(), one(), one()]).update(
            1,
            xy,
        ).update(2, xz).update(4, yx).update(6, yz).update(8, zx).update(9, zy));
        m
    }
}

/// Flipping a matrix twice gives the matrix back.
pub proof fn lemma_transpose_twice(m: Seq<Scalar>)
    requires
        m.len() == 16,
    ensures
        transposed(transposed(m, 4), 4) == m,
{
    assert(transposed(transposed(m, 4), 4) =~= m);
}

/// The number in row `r` and column `c` of the flipped matrix is the one in
/// row `c` and column `r` of the matrix.
pub proof fn lemma_transposed_at(m: Seq<Scalar>, r: int, c: int)
    requires
        m.len() == 16,
        0 <= r < 4,
        0 <= c < 4,
    ensures
        transposed(m, 4)[r * 4 + c] == m[c * 4 + r],
{
}

/// The number in row `r` and column `c` of a submatrix is the one that stood
/// there once the row and the column that were left out are counted again.
pub proof fn lemma_without_at(m: Seq<Scalar>, side: int, row: int, col: int, r: int, c: int)
    requires
        2 <= side <= 4,
        m.len() == side * side,
        0 <= row < side,
        0 <= col < side,
        0 <= r < side - 1,
        0 <= c < side - 1,
    ensures
        0 <= r * (side - 1) + c < (side - 1) * (side - 1),
        without(m, side, row, col)[r * (side - 1) + c] == m[kept(r, row) * side + kept(c, col)],
{
    assert(0 <= r * (side - 1) + c < (side - 1) * (side - 1)) by (nonlinear_arith)
        requires
            2 <= side <= 4,
            0 <= r < side - 1,
            0 <= c < side - 1,
    ;
    assert((r * (side - 1) + c) / (side - 1) == r && (r * (side - 1) + c) % (side - 1) == c)
        by (nonlinear_arith)
        requires
            2 <= side <= 4,
            0 <= r < side - 1,
            0 <= c < side - 1,
    ;
}

} // verus!
