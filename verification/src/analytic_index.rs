//! Analytic side: `ind D = dim ker D - dim coker D` for a matrix operator,
//! read from its shape and numerical rank.

use vstd::prelude::*;

verus! {

/// Shape and numerical rank of a matrix operator `D: ℝ^ncols → ℝ^nrows`.
#[derive(Clone, Copy, Debug, PartialEq, Eq)]
pub struct MatrixRank {
    pub nrows: usize,
    pub ncols: usize,
    pub rank: usize,
}

impl MatrixRank {
    /// The rank of a matrix is at most each of its dimensions.
    pub open spec fn wf(&self) -> bool {
        &&& self.rank <= self.nrows
        &&& self.rank <= self.ncols
    }

    /// Both dimensions fit in an `i64`, so the index can be formed there.
    pub open spec fn fits_i64(&self) -> bool {
        &&& self.nrows <= i64::MAX
        &&& self.ncols <= i64::MAX
    }

    /// `dim ker D = ncols - rank D`.
    pub open spec fn kernel_dim(&self) -> int {
        self.ncols - self.rank
    }

    /// `dim coker D = nrows - rank D`.
    pub open spec fn cokernel_dim(&self) -> int {
        self.nrows - self.rank
    }

    /// `ind D = dim ker D - dim coker D`.
    pub open spec fn index(&self) -> int {
        self.kernel_dim() - self.cokernel_dim()
    }

    /// The shape and rank of the adjoint `D*`: rows and columns swap, the rank stays.
    pub open spec fn adjoint_spec(&self) -> MatrixRank {
        MatrixRank { nrows: self.ncols, ncols: self.nrows, rank: self.rank }
    }

    pub fn new(nrows: usize, ncols: usize, rank: usize) -> (m: MatrixRank)
        requires
            rank <= nrows,
            rank <= ncols,
        ensures
            m.wf(),
            m.nrows == nrows,
            m.ncols == ncols,
            m.rank == rank,
    {
        MatrixRank { nrows, ncols, rank }
    }

    /// Shape and rank of the adjoint `D*` (the transpose).
    pub fn adjoint(&self) -> (a: MatrixRank)
        requires
            self.wf(),
        ensures
            a == self.adjoint_spec(),
            a.nrows == self.ncols,
            a.ncols == self.nrows,
            a.rank == self.rank,
            a.wf(),
    {
        MatrixRank { nrows: self.ncols, ncols: self.nrows, rank: self.rank }
    }
}

/// Dimension of the kernel, `ncols - rank`.
pub fn dim_kernel(m: &MatrixRank) -> (d: usize)
    requires
        m.wf(),
    ensures
        d == m.kernel_dim(),
        d + m.rank == m.ncols,
{
    m.ncols - m.rank
}

/// Dimension of the cokernel, `nrows - rank`.
pub fn dim_cokernel(m: &MatrixRank) -> (d: usize)
    requires
        m.wf(),
    ensures
        d == m.cokernel_dim(),
        d + m.rank == m.nrows,
{
    m.nrows - m.rank
}

/// Analytic index `dim ker D - dim coker D`; by rank–nullity it is
/// `ncols - nrows` whatever the rank.
pub fn analytic_index_matrix(m: &MatrixRank) -> (idx: i64)
    requires
        m.wf(),
        m.fits_i64(),
    ensures
        idx == m.index(),
        idx == m.ncols - m.nrows,
{
    let dk = dim_kernel(m) as i64;
    let dc = dim_cokernel(m) as i64;
    dk - dc
}

/// Fredholm index of a matrix operator, the same as its analytic index.
pub fn fredholm_index(m: &MatrixRank) -> (idx: i64)
    requires
        m.wf(),
        m.fits_i64(),
    ensures
        idx == m.index(),
        idx == m.ncols - m.nrows,
{
    analytic_index_matrix(m)
}

/// A matrix operator is Fredholm: its kernel and cokernel are subspaces of
/// finite-dimensional spaces, so both are finite-dimensional.
pub fn is_fredholm(m: &MatrixRank) -> (b: bool)
    requires
        m.wf(),
    ensures
        b == (0 <= m.kernel_dim() <= m.ncols && 0 <= m.cokernel_dim() <= m.nrows),
        b,
{
    true
}

/// Rank–nullity: the kernel and the image of `D` fill its domain, and the
/// cokernel and the image fill its codomain.
pub proof fn lemma_rank_nullity(m: MatrixRank)
    requires
        m.wf(),
    ensures
        m.kernel_dim() + m.rank == m.ncols,
        m.cokernel_dim() + m.rank == m.nrows,
        m.kernel_dim() >= 0,
        m.cokernel_dim() >= 0,
        m.index() == m.ncols - m.nrows,
{
}

/// The cokernel of `D` is the kernel of its adjoint, and the adjoint has the
/// opposite index: `ind D* = -ind D`.
pub proof fn lemma_adjoint_index(m: MatrixRank)
    requires
        m.wf(),
    ensures
        m.adjoint_spec().wf(),
        m.adjoint_spec().kernel_dim() == m.cokernel_dim(),
        m.adjoint_spec().cokernel_dim() == m.kernel_dim(),
        m.adjoint_spec().index() == -m.index(),
{
}

/// Rank–nullity: the analytic index depends on the shape alone; two operators
/// of the same shape have the same index, whatever their ranks.
pub proof fn lemma_index_depends_on_shape_only(a: MatrixRank, b: MatrixRank)
    requires
        a.wf(),
        b.wf(),
        a.nrows == b.nrows,
        a.ncols == b.ncols,
    ensures
        a.index() == b.index(),
        a.index() == a.ncols - a.nrows,
{
}

} // verus!
