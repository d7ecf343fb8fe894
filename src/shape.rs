//! Row-major layout of an N-dimensional grid: the map between an index tuple
//! and a position in a flat buffer, and its inverse.
use vstd::prelude::*;

use crate::error::QuestPlusError;

verus! {

/// Number of cells of a grid with the given extents.
pub open spec fn grid_size(dims: Seq<usize>) -> nat
    decreases dims.len(),
{
    if dims.len() == 0 {
        1
    } else {
        grid_size(dims.drop_last()) * (dims.last() as nat)
    }
}

/// Every extent is at least one.
pub open spec fn all_positive(dims: Seq<usize>) -> bool {
    forall|k: int| 0 <= k < dims.len() ==> dims[k] >= 1
}

/// `idx` addresses a cell of the grid `dims`.
pub open spec fn in_bounds(dims: Seq<usize>, idx: Seq<usize>) -> bool {
    &&& idx.len() == dims.len()
    &&& forall|k: int| 0 <= k < dims.len() ==> idx[k] < dims[k]
}

/// Row-major position of `idx`: the last index varies fastest.
pub open spec fn flat_offset(dims: Seq<usize>, idx: Seq<usize>) -> nat
    decreases dims.len(),
{
    if dims.len() == 0 || idx.len() == 0 {
        0
    } else {
        flat_offset(dims.drop_last(), idx.drop_last()) * (dims.last() as nat) + (idx.last() as nat)
    }
}

/// The index tuple at row-major position `f`.
pub open spec fn unravel(dims: Seq<usize>, f: nat) -> Seq<usize>
    decreases dims.len(),
{
    if dims.len() == 0 {
        seq![]
    } else {
        let d = dims.last() as nat;
        unravel(dims.drop_last(), f / d).push((f % d) as usize)
    }
}

/// Lexicographic order on index tuples of equal length: the first position at
/// which they differ decides.
pub open spec fn lex_lt(a: Seq<usize>, b: Seq<usize>) -> bool
    decreases a.len(),
{
    if a.len() == 0 || b.len() == 0 {
        false
    } else {
        lex_lt(a.drop_last(), b.drop_last()) || (a.drop_last() == b.drop_last() && a.last()
            < b.last())
    }
}

proof fn lemma_in_bounds_prefix(dims: Seq<usize>, idx: Seq<usize>)
    requires
        in_bounds(dims, idx),
        dims.len() > 0,
    ensures
        in_bounds(dims.drop_last(), idx.drop_last()),
        idx.last() < dims.last(),
{
}

proof fn lemma_mixed_radix_step(a: int, b: int, x: int, y: int, d: int)
    by (nonlinear_arith)
    requires
        0 <= a,
        0 <= b,
        0 <= x < d,
        0 <= y < d,
    ensures
        (a * d + x < b * d + y) <==> (a < b || (a == b && x < y)),
        (a * d + x == b * d + y) <==> (a == b && x == y),
{
    if a < b {
        assert(a * d + d <= b * d);
    }
    if b < a {
        assert(b * d + d <= a * d);
    }
}

proof fn lemma_step_bound(a: int, p: int, x: int, d: int)
    by (nonlinear_arith)
    requires
        0 <= a < p,
        0 <= x < d,
    ensures
        a * d + x < p * d,
{
    assert(a * d + d <= p * d);
}

/// An in-bounds index tuple lands inside the flat buffer.
pub proof fn lemma_offset_bound(dims: Seq<usize>, idx: Seq<usize>)
    requires
        in_bounds(dims, idx),
    ensures
        flat_offset(dims, idx) < grid_size(dims),
    decreases dims.len(),
{
    if dims.len() > 0 {
        lemma_in_bounds_prefix(dims, idx);
        lemma_offset_bound(dims.drop_last(), idx.drop_last());
        lemma_step_bound(
            flat_offset(dims.drop_last(), idx.drop_last()) as int,
            grid_size(dims.drop_last()) as int,
            idx.last() as int,
            dims.last() as int,
        );
    }
}

/// The row-major position orders in-bounds index tuples lexicographically and
/// tells distinct tuples apart.
pub proof fn lemma_offset_order(dims: Seq<usize>, a: Seq<usize>, b: Seq<usize>)
    requires
        in_bounds(dims, a),
        in_bounds(dims, b),
    ensures
        flat_offset(dims, a) < flat_offset(dims, b) <==> lex_lt(a, b),
        flat_offset(dims, a) == flat_offset(dims, b) <==> a == b,
    decreases dims.len(),
{
    if dims.len() == 0 {
        assert(a =~= b);
    } else {
        let pd = dims.drop_last();
        lemma_in_bounds_prefix(dims, a);
        lemma_in_bounds_prefix(dims, b);
        lemma_offset_order(pd, a.drop_last(), b.drop_last());
        lemma_mixed_radix_step(
            flat_offset(pd, a.drop_last()) as int,
            flat_offset(pd, b.drop_last()) as int,
            a.last() as int,
            b.last() as int,
            dims.last() as int,
        );
        if a.drop_last() == b.drop_last() && a.last() == b.last() {
            assert(a =~= b) by {
                assert forall|k: int| 0 <= k < a.len() implies a[k] == b[k] by {
                    if k < a.len() - 1 {
                        assert(a[k] == a.drop_last()[k]);
                        assert(b[k] == b.drop_last()[k]);
                    }
                }
            }
        }
    }
}

/// Unravelling a position inside the buffer gives an in-bounds tuple whose
/// position is the one unravelled.
pub proof fn lemma_unravel(dims: Seq<usize>, f: nat)
    requires
        all_positive(dims),
        f < grid_size(dims),
    ensures
        in_bounds(dims, unravel(dims, f)),
        flat_offset(dims, unravel(dims, f)) == f,
    decreases dims.len(),
{
    if dims.len() > 0 {
        let pd = dims.drop_last();
        let d = dims.last() as nat;
        let q = f / d;
        assert(all_positive(pd)) by {
            assert forall|k: int| 0 <= k < pd.len() implies pd[k] >= 1 by {
                assert(pd[k] == dims[k]);
            }
        }
        assert(q < grid_size(pd)) by (nonlinear_arith)
            requires
                f < grid_size(pd) * d,
                d >= 1,
                q == f / d,
        {
        }
        assert(q * d + f % d == f) by (nonlinear_arith)
            requires
                d >= 1,
                q == f / d,
        {
        }
        lemma_unravel(pd, q);
        let u = unravel(dims, f);
        assert(u.drop_last() =~= unravel(pd, q));
        assert forall|k: int| 0 <= k < dims.len() implies u[k] < dims[k] by {
            if k < dims.len() - 1 {
                assert(u[k] == unravel(pd, q)[k]);
                assert(dims[k] == pd[k]);
            }
        }
    }
}

/// The position of a concatenated tuple: the leading part counts whole blocks
/// of the trailing grid's size.
pub proof fn lemma_offset_concat(a: Seq<usize>, b: Seq<usize>, i: Seq<usize>, j: Seq<usize>)
    requires
        in_bounds(a, i),
        in_bounds(b, j),
    ensures
        in_bounds(a + b, i + j),
        flat_offset(a + b, i + j) == flat_offset(a, i) * grid_size(b) + flat_offset(b, j),
    decreases b.len(),
{
    if b.len() == 0 {
        assert(a + b =~= a);
        assert(i + j =~= i);
        assert(grid_size(b) == 1);
        assert(flat_offset(b, j) == 0);
    } else {
        let b1 = b.drop_last();
        let j1 = j.drop_last();
        lemma_in_bounds_prefix(b, j);
        lemma_offset_concat(a, b1, i, j1);
        assert((a + b).drop_last() =~= a + b1);
        assert((i + j).drop_last() =~= i + j1);
        let oa = flat_offset(a, i) as int;
        let g1 = grid_size(b1) as int;
        let o1 = flat_offset(b1, j1) as int;
        let d = b.last() as int;
        let x = j.last() as int;
        assert((a + b).last() == b.last());
        assert((i + j).last() == j.last());
        assert(grid_size(b) == g1 * d);
        assert(flat_offset(b, j) == o1 * d + x);
        assert(flat_offset(a + b, i + j) == flat_offset(a + b1, i + j1) * (d as nat) + (x as nat));
        assert(flat_offset(a + b1, i + j1) == oa * g1 + o1);
        assert((oa * g1 + o1) * d + x == oa * (g1 * d) + (o1 * d + x)) by (nonlinear_arith);
    }
}

/// Grid sizes of the prefixes of a grid with positive extents never shrink.
pub proof fn lemma_size_monotone(dims: Seq<usize>, k: int)
    requires
        all_positive(dims),
        0 <= k <= dims.len(),
    ensures
        grid_size(dims.subrange(0, k)) <= grid_size(dims),
        grid_size(dims) >= 1,
    decreases dims.len(),
{
    if dims.len() > 0 {
        let pd = dims.drop_last();
        assert(all_positive(pd)) by {
            assert forall|j: int| 0 <= j < pd.len() implies pd[j] >= 1 by {
                assert(pd[j] == dims[j]);
            }
        }
        let g = grid_size(pd);
        let d = dims.last() as nat;
        if k == dims.len() {
            assert(dims.subrange(0, k) =~= dims);
            lemma_size_monotone(pd, 0);
        } else {
            assert(dims.subrange(0, k) =~= pd.subrange(0, k));
            lemma_size_monotone(pd, k);
        }
        assert(g <= g * d && g * d >= 1) by (nonlinear_arith)
            requires
                g >= 1,
                d >= 1,
        {
        }
    }
}

/// The extents of an N-dimensional grid, every one at least one, whose number
/// of cells fits in `usize`.
pub struct Shape {
    dims: Vec<usize>,
    size: usize,
}

impl View for Shape {
    type V = Seq<usize>;

    closed spec fn view(&self) -> Seq<usize> {
        self.dims@
    }
}

impl Shape {
    /// The shape is well formed: extents positive, cell count cached.
    pub closed spec fn wf(&self) -> bool {
        &&& all_positive(self.dims@)
        &&& grid_size(self.dims@) == self.size as nat
    }

    /// A shape with the given extents. Fails with `EmptyDomain` when an extent
    /// is zero, and otherwise with `ShapeInvariantViolation` when the number of
    /// cells does not fit in `usize`.
    pub fn new(dims: Vec<usize>) -> (r: Result<Shape, QuestPlusError>)
        ensures
            r is Ok <==> (all_positive(dims@) && grid_size(dims@) <= usize::MAX),
            r == Err::<Shape, QuestPlusError>(QuestPlusError::EmptyDomain) <==> !all_positive(
                dims@,
            ),
            r is Ok ==> r->Ok_0@ == dims@ && r->Ok_0.wf(),
            r is Err ==> (r->Err_0 == QuestPlusError::EmptyDomain || r->Err_0
                == QuestPlusError::ShapeInvariantViolation),
    {
        let n = dims.len();
        let mut k: usize = 0;
        while k < n
            invariant
                n == dims.len(),
                k <= n,
                forall|j: int| 0 <= j < k ==> dims[j] >= 1,
            decreases n - k,
        {
            if dims[k] == 0 {
                return Err(QuestPlusError::EmptyDomain);
            }
            k = k + 1;
        }
        let mut size: usize = 1;
        let mut k: usize = 0;
        while k < n
            invariant
                n == dims.len(),
                k <= n,
                all_positive(dims@),
                size as nat == grid_size(dims@.subrange(0, k as int)),
            decreases n - k,
        {
            assert(dims@.subrange(0, k + 1).drop_last() =~= dims@.subrange(0, k as int));
            match size.checked_mul(dims[k]) {
                Some(p) => {
                    size = p;
                },
                None => {
                    proof {
                        lemma_size_monotone(dims@, k + 1);
                    }
                    return Err(QuestPlusError::ShapeInvariantViolation);
                },
            }
            k = k + 1;
        }
        assert(dims@.subrange(0, n as int) =~= dims@);
        Ok(Shape { dims, size })
    }

    /// Number of dimensions.
    pub fn rank(&self) -> (r: usize)
        ensures
            r == self@.len(),
    {
        self.dims.len()
    }

    /// Number of cells.
    pub fn size(&self) -> (r: usize)
        requires
            self.wf(),
        ensures
            r == grid_size(self@),
    {
        self.size
    }

    /// Extent of dimension `k`.
    pub fn dim(&self, k: usize) -> (r: usize)
        requires
            k < self@.len(),
        ensures
            r == self@[k as int],
    {
        self.dims[k]
    }

    /// The extents.
    pub fn dims(&self) -> (r: &Vec<usize>)
        ensures
            r@ == self@,
    {
        &self.dims
    }

    /// A well-formed shape has positive extents and a cell count that fits.
    pub proof fn lemma_wf(&self)
        requires
            self.wf(),
        ensures
            all_positive(self@),
            1 <= grid_size(self@) <= usize::MAX,
    {
        lemma_size_monotone(self@, 0);
    }

    /// Row-major position of an in-bounds index tuple.
    pub fn offset(&self, idx: &Vec<usize>) -> (r: usize)
        requires
            self.wf(),
            in_bounds(self@, idx@),
        ensures
            r == flat_offset(self@, idx@),
            r < grid_size(self@),
    {
        let n = self.dims.len();
        let mut acc: usize = 0;
        let mut k: usize = 0;
        while k < n
            invariant
                self.wf(),
                n == self@.len(),
                in_bounds(self@, idx@),
                k <= n,
                acc as nat == flat_offset(self@.subrange(0, k as int), idx@.subrange(0, k as int)),
            decreases n - k,
        {
            let ghost pd = self@.subrange(0, k + 1);
            let ghost pi = idx@.subrange(0, k + 1);
            assert(pd.drop_last() =~= self@.subrange(0, k as int));
            assert(pi.drop_last() =~= idx@.subrange(0, k as int));
            proof {
                assert(in_bounds(pd, pi));
                lemma_offset_bound(pd, pi);
                lemma_size_monotone(self@, k + 1);
                assert(self.wf());
            }
            acc = acc * self.dims[k] + idx[k];
            k = k + 1;
        }
        assert(self@.subrange(0, n as int) =~= self@);
        assert(idx@.subrange(0, n as int) =~= idx@);
        proof {
            lemma_offset_bound(self@, idx@);
        }
        acc
    }

    /// The in-bounds index tuple at row-major position `f`.
    pub fn unravel(&self, f: usize) -> (r: Vec<usize>)
        requires
            self.wf(),
            f < grid_size(self@),
        ensures
            r@ == unravel(self@, f as nat),
            in_bounds(self@, r@),
            flat_offset(self@, r@) == f,
    {
        let n = self.dims.len();
        let mut idx: Vec<usize> = Vec::new();
        let mut j: usize = 0;
        while j < n
            invariant
                j <= n,
                idx@.len() == j,
            decreases n - j,
        {
            idx.push(0);
            j = j + 1;
        }
        let mut rem: usize = f;
        let mut k: usize = n;
        assert(self@.subrange(0, n as int) =~= self@);
        assert(unravel(self@, f as nat) + idx@.subrange(n as int, n as int) =~= unravel(
            self@,
            f as nat,
        ));
        while k > 0
            invariant
                self.wf(),
                n == self@.len(),
                k <= n,
                idx@.len() == n,
                unravel(self@.subrange(0, k as int), rem as nat) + idx@.subrange(k as int, n as int)
                    == unravel(self@, f as nat),
            decreases k,
        {
            let ghost old_idx = idx@;
            let ghost r0 = rem as nat;
            let ghost pd = self@.subrange(0, k as int);
            let ghost qd = self@.subrange(0, k - 1);
            assert(pd.drop_last() =~= qd);
            assert(self.dims[k - 1] >= 1);
            let d = self.dims[k - 1];
            idx.set(k - 1, rem % d);
            rem = rem / d;
            proof {
                assert(unravel(pd, r0) == unravel(qd, rem as nat).push((r0 % (d as nat)) as usize));
                assert(unravel(qd, rem as nat) + idx@.subrange(k - 1, n as int) =~= unravel(pd, r0)
                    + old_idx.subrange(k as int, n as int));
            }
            k = k - 1;
        }
        assert(self@.subrange(0, 0) =~= Seq::<usize>::empty());
        assert(idx@.subrange(0, n as int) =~= idx@);
        proof {
            lemma_unravel(self@, f as nat);
        }
        idx
    }
}

} // verus!
