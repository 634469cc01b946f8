//! Tensors of heads in memory.
//!
//! A tensor has rows, columns and head dimensions, one behind the other. A head is read
//! and written in two halves.

use vstd::arithmetic::mul::*;
use vstd::prelude::*;

use crate::kernels::schedule;

verus! {

/// The extents of a tensor of heads.
#[derive(Clone, Copy, Debug, PartialEq, Eq, Structural)]
pub struct HeadView {
    pub rows: i32,
    pub cols: i32,
    pub dim: i32,
}

impl HeadView {
    /// The extents are extents, a head has two halves, and the strides are in range.
    pub open spec fn fits(self) -> bool {
        &&& 0 <= self.rows
        &&& 0 <= self.cols
        &&& 0 < self.dim
        &&& self.dim % 2 == 0
        &&& self.cols * self.dim <= i32::MAX
    }

    /// The number of elements.
    pub open spec fn elements(self) -> int {
        self.rows * (self.cols * self.dim)
    }

    /// The number of elements of half a head.
    pub open spec fn half(self) -> int {
        self.dim as int / 2
    }

    /// A half of a head is one of the tensor.
    pub open spec fn has(self, row: int, col: int, part: int) -> bool {
        0 <= row < self.rows && 0 <= col < self.cols && 0 <= part <= 1
    }

    /// Where the half of a head begins.
    pub open spec fn offset(self, row: int, col: int, part: int) -> int {
        row * (self.cols * self.dim) + col * self.dim + part * self.half()
    }

    /// The strides of the rows and of the columns; that of the elements is 1.
    pub fn strides(self) -> (s: (i32, i32))
        requires
            self.fits(),
        ensures
            s.0 == self.cols * self.dim,
            s.1 == self.dim,
            s.0 == self.offset(1, 0, 0),
            s.1 == self.offset(0, 1, 0),
    {
        proof {
            lemma_mul_nonnegative(self.cols as int, self.dim as int);
        }
        (self.cols * self.dim, self.dim)
    }

    /// Where the half of a head begins.
    pub fn half_offset(self, row: i32, col: i32, part: i32) -> (offset: i64)
        requires
            self.fits(),
            self.has(row as int, col as int, part as int),
        ensures
            offset == self.offset(row as int, col as int, part as int),
    {
        let (row_stride, col_stride) = self.strides();
        proof {
            assert(0 <= row * row_stride <= 0x7fff_ffff * 0x7fff_ffff) by (nonlinear_arith)
                requires
                    0 <= row <= 0x7fff_ffff,
                    0 <= row_stride <= 0x7fff_ffff,
            ;
            assert(0 <= col * col_stride <= row_stride) by (nonlinear_arith)
                requires
                    0 <= col < self.cols,
                    0 < col_stride == self.dim,
                    row_stride == self.cols * self.dim,
            ;
            assert(0 <= part * self.half() <= self.dim) by (nonlinear_arith)
                requires
                    0 <= part <= 1,
                    0 <= self.half() <= self.dim,
            ;
        }
        row as i64 * row_stride as i64 + col as i64 * col_stride as i64 + part as i64 * (self.dim
            / 2) as i64
    }
}

/// Half a head lies in its tensor.
pub proof fn halves_are_inside(view: HeadView, row: int, col: int, part: int)
    requires
        view.fits(),
        view.has(row, col, part),
    ensures
        0 <= view.offset(row, col, part),
        view.offset(row, col, part) + view.half() <= view.elements(),
{
    let dim = view.dim as int;
    let cols = view.cols as int;
    let stride = cols * dim;
    let h = view.half();
    assert(dim == 2 * h);
    assert(0 <= part * h && part * h + h <= dim) by (nonlinear_arith)
        requires
            0 <= part <= 1,
            dim == 2 * h,
            0 <= h,
    ;
    assert(0 <= col * dim && col * dim + dim <= stride) by (nonlinear_arith)
        requires
            0 <= col < cols,
            0 < dim,
            stride == cols * dim,
    ;
    assert(0 <= row * stride && row * stride + stride <= view.rows * stride) by (nonlinear_arith)
        requires
            0 <= row < view.rows,
            0 <= stride,
    ;
}

/// Different halves of heads have no element in common.
pub proof fn halves_do_not_meet(
    view: HeadView,
    row1: int,
    col1: int,
    part1: int,
    row2: int,
    col2: int,
    part2: int,
)
    requires
        view.fits(),
        view.has(row1, col1, part1),
        view.has(row2, col2, part2),
        (row1, col1, part1) != (row2, col2, part2),
    ensures
        view.offset(row1, col1, part1) + view.half() <= view.offset(row2, col2, part2)
            || view.offset(row2, col2, part2) + view.half() <= view.offset(row1, col1, part1),
{
    let dim = view.dim as int;
    let h = view.half();
    let cols = view.cols as int;
    assert(dim == 2 * h);
    let n1 = (row1 * cols + col1) * 2 + part1;
    let n2 = (row2 * cols + col2) * 2 + part2;
    assert(view.offset(row1, col1, part1) == n1 * h) by (nonlinear_arith)
        requires
            view.offset(row1, col1, part1) == row1 * (cols * dim) + col1 * dim + part1 * h,
            dim == 2 * h,
            n1 == (row1 * cols + col1) * 2 + part1,
    ;
    assert(view.offset(row2, col2, part2) == n2 * h) by (nonlinear_arith)
        requires
            view.offset(row2, col2, part2) == row2 * (cols * dim) + col2 * dim + part2 * h,
            dim == 2 * h,
            n2 == (row2 * cols + col2) * 2 + part2,
    ;
    schedule::quotient_and_remainder(row1, col1, cols);
    schedule::quotient_and_remainder(row2, col2, cols);
    schedule::quotient_and_remainder(row1 * cols + col1, part1, 2);
    schedule::quotient_and_remainder(row2 * cols + col2, part2, 2);
    assert(n1 != n2);
    if n1 < n2 {
        assert(n1 * h + h <= n2 * h) by (nonlinear_arith)
            requires
                n1 + 1 <= n2,
                0 <= h,
        ;
    } else {
        assert(n2 * h + h <= n1 * h) by (nonlinear_arith)
            requires
                n2 + 1 <= n1,
                0 <= h,
        ;
    }
}

/// A tensor of heads is laid out row by row, a row head by head, and a head is its lower half
/// and then its upper half.
pub proof fn heads_are_row_major(view: HeadView, row: int, col: int)
    requires
        view.fits(),
    ensures
        view.offset(0, 0, 0) == 0,
        view.offset(row, col, 1) == view.offset(row, col, 0) + view.dim as int / 2,
        view.offset(row, col + 1, 0) == view.offset(row, col, 0) + view.dim,
        view.offset(row + 1, 0, 0) == view.offset(row, view.cols as int, 0),
{
    let width = view.cols * view.dim;
    assert(view.offset(0, 0, 0) == 0) by (nonlinear_arith)
        requires
            view.offset(0, 0, 0) == 0 * width + 0 * view.dim + 0 * view.half(),
    ;
    assert(1 * view.half() == view.half() && 0 * view.half() == 0) by (nonlinear_arith);
    assert((col + 1) * view.dim == col * view.dim + view.dim) by (nonlinear_arith);
    assert((row + 1) * width == row * width + width) by (nonlinear_arith);
    assert(0 * view.dim == 0) by (nonlinear_arith);
}

} // verus!
