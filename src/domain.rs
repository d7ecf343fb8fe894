//! The discretised domains of a session: candidate stimuli and the grids of
//! the psychometric function's parameters.
use vstd::prelude::*;

use crate::error::QuestPlusError;
use crate::shape::{all_positive, grid_size, in_bounds, Shape};

verus! {

/// Extents of a list of grids.
pub open spec fn lens_of<T>(grids: Seq<Vec<T>>) -> Seq<usize> {
    Seq::new(grids.len(), |k: int| grids[k].len())
}

/// Ordered candidate stimulus values; never empty.
pub struct StimulusDomain<T> {
    values: Vec<T>,
}

impl<T> StimulusDomain<T> {
    /// The candidate values.
    pub closed spec fn view(&self) -> Seq<T> {
        self.values@
    }

    /// The domain has at least one candidate, and a count that fits `usize`.
    pub open spec fn wf(&self) -> bool {
        0 < self.view().len() <= usize::MAX
    }

    /// A domain over `values`. Fails with `EmptyDomain` when there is none.
    pub fn new(values: Vec<T>) -> (r: Result<StimulusDomain<T>, QuestPlusError>)
        ensures
            r is Ok <==> values@.len() > 0,
            r is Ok ==> (r->Ok_0.view() == values@ && r->Ok_0.wf()),
            r is Err ==> r->Err_0 == QuestPlusError::EmptyDomain,
    {
        if values.len() == 0 {
            Err(QuestPlusError::EmptyDomain)
        } else {
            Ok(StimulusDomain { values })
        }
    }

    /// Number of candidates.
    pub fn len(&self) -> (r: usize)
        ensures
            r == self.view().len(),
    {
        self.values.len()
    }

    /// The candidate at position `i`.
    pub fn value(&self, i: usize) -> (r: &T)
        requires
            i < self.view().len(),
        ensures
            *r == self.view()[i as int],
    {
        &self.values[i]
    }

    /// The candidates in order.
    pub fn values(&self) -> (r: &Vec<T>)
        ensures
            r@ == self.view(),
    {
        &self.values
    }
}

/// One ordered grid of candidate values per parameter; the joint grid is
/// their Cartesian product, laid out row-major.
pub struct ParameterDomain<T> {
    grids: Vec<Vec<T>>,
    shape: Shape,
}

impl<T> ParameterDomain<T> {
    /// The grid of each parameter.
    pub closed spec fn grids(&self) -> Seq<Vec<T>> {
        self.grids@
    }

    /// Extents of the joint grid.
    pub open spec fn dims(&self) -> Seq<usize> {
        lens_of(self.grids())
    }

    /// Grids and cached shape agree; every grid is non-empty and the joint
    /// grid's size fits in `usize`.
    pub closed spec fn wf(&self) -> bool {
        &&& self.shape.wf()
        &&& self.shape@ == lens_of(self.grids@)
    }

    /// A domain over `grids`. Fails with `EmptyDomain` when a grid is empty,
    /// and otherwise with `ShapeInvariantViolation` when the joint grid has
    /// more cells than `usize` counts.
    pub fn new(grids: Vec<Vec<T>>) -> (r: Result<ParameterDomain<T>, QuestPlusError>)
        ensures
            r is Ok <==> (all_positive(lens_of(grids@)) && grid_size(lens_of(grids@))
                <= usize::MAX),
            r == Err::<ParameterDomain<T>, QuestPlusError>(QuestPlusError::EmptyDomain) <==> exists|
                k: int,
            |
                0 <= k < grids@.len() && grids@[k]@.len() == 0,
            r is Ok ==> (r->Ok_0.wf() && r->Ok_0.grids() == grids@),
            r is Err ==> (r->Err_0 == QuestPlusError::EmptyDomain || r->Err_0
                == QuestPlusError::ShapeInvariantViolation),
    {
        let mut lens: Vec<usize> = Vec::new();
        let mut k: usize = 0;
        while k < grids.len()
            invariant
                k <= grids@.len(),
                lens@ =~= lens_of(grids@).subrange(0, k as int),
            decreases grids@.len() - k,
        {
            lens.push(grids[k].len());
            k = k + 1;
        }
        assert(lens@ =~= lens_of(grids@));
        assert(!all_positive(lens@) <==> exists|k: int|
            0 <= k < grids@.len() && grids@[k]@.len() == 0) by {
            if !all_positive(lens@) {
                let k = choose|k: int| 0 <= k < lens@.len() && !(lens@[k] >= 1);
                assert(lens@[k] == grids@[k].len());
                assert(grids@[k]@.len() == 0);
            }
            if exists|k: int| 0 <= k < grids@.len() && grids@[k]@.len() == 0 {
                let k = choose|k: int| 0 <= k < grids@.len() && grids@[k]@.len() == 0;
                assert(lens@[k] == grids@[k].len());
                assert(!(lens@[k] >= 1));
            }
        }
        match Shape::new(lens) {
            Ok(shape) => Ok(ParameterDomain { grids, shape }),
            Err(e) => Err(e),
        }
    }

    /// A well-formed domain has non-empty grids and a joint grid whose size
    /// fits in `usize`.
    pub proof fn lemma_wf(&self)
        requires
            self.wf(),
        ensures
            all_positive(self.dims()),
            1 <= grid_size(self.dims()) <= usize::MAX,
    {
        self.shape.lemma_wf();
    }

    /// Number of parameters.
    pub fn rank(&self) -> (r: usize)
        ensures
            r == self.grids().len(),
    {
        self.grids.len()
    }

    /// The grid of parameter `k`.
    pub fn grid(&self, k: usize) -> (r: &Vec<T>)
        requires
            k < self.grids().len(),
        ensures
            r@ == self.grids()[k as int]@,
    {
        &self.grids[k]
    }

    /// The shape of the joint grid.
    pub fn shape(&self) -> (r: &Shape)
        requires
            self.wf(),
        ensures
            r.wf(),
            r@ == self.dims(),
    {
        &self.shape
    }

    /// Checks optional prior weight vectors, one per parameter, against the
    /// grids. Fails with `ShapeInvariantViolation` when the number of vectors
    /// is not the number of parameters, and otherwise with
    /// `ParameterLengthMismatch` for the first supplied vector whose length is
    /// not its grid's.
    pub fn check_prior_weights<W>(&self, weights: &Vec<Option<Vec<W>>>) -> (r: Result<
        (),
        QuestPlusError,
    >)
        ensures
            r is Ok <==> (weights@.len() == self.grids().len() && forall|k: int|
                0 <= k < weights@.len() && (#[trigger] weights@[k]) is Some ==> weights@[k]->Some_0@.len()
                    == self.grids()[k]@.len()),
            r == Err::<(), QuestPlusError>(QuestPlusError::ShapeInvariantViolation) <==> weights@.len()
                != self.grids().len(),
            r is Err ==> (r->Err_0 == QuestPlusError::ShapeInvariantViolation || r->Err_0
                is ParameterLengthMismatch),
            r matches Err(QuestPlusError::ParameterLengthMismatch { dimension, expected, found })
                ==> {
                &&& dimension < weights@.len()
                &&& weights@[dimension as int] is Some
                &&& found == weights@[dimension as int]->Some_0@.len()
                &&& expected == self.grids()[dimension as int]@.len()
                &&& found != expected
                &&& forall|j: int|
                    0 <= j < dimension && (#[trigger] weights@[j]) is Some ==> weights@[j]->Some_0@.len()
                        == self.grids()[j]@.len()
            },
    {
        if weights.len() != self.grids.len() {
            return Err(QuestPlusError::ShapeInvariantViolation);
        }
        let mut k: usize = 0;
        while k < weights.len()
            invariant
                weights@.len() == self.grids@.len(),
                k <= weights@.len(),
                forall|j: int|
                    0 <= j < k && (#[trigger] weights@[j]) is Some ==> weights@[j]->Some_0@.len()
                        == self.grids@[j]@.len(),
            decreases weights@.len() - k,
        {
            match &weights[k] {
                Some(w) => {
                    if w.len() != self.grids[k].len() {
                        return Err(
                            QuestPlusError::ParameterLengthMismatch {
                                dimension: k,
                                expected: self.grids[k].len(),
                                found: w.len(),
                            },
                        );
                    }
                },
                None => {},
            }
            k = k + 1;
        }
        Ok(())
    }
}

impl<T: Copy> ParameterDomain<T> {
    /// The grid values that an index tuple of the joint grid picks, one per
    /// parameter.
    pub fn values_at(&self, idx: &Vec<usize>) -> (r: Vec<T>)
        requires
            in_bounds(self.dims(), idx@),
        ensures
            r@.len() == idx@.len(),
            forall|k: int| 0 <= k < r@.len() ==> r@[k] == self.grids()[k]@[idx@[k] as int],
    {
        let mut r: Vec<T> = Vec::new();
        let mut k: usize = 0;
        while k < idx.len()
            invariant
                in_bounds(self.dims(), idx@),
                k <= idx@.len(),
                r@.len() == k,
                forall|j: int| 0 <= j < k ==> r@[j] == self.grids()[j]@[idx@[j] as int],
            decreases idx@.len() - k,
        {
            assert(idx@[k as int] < self.grids@[k as int]@.len());
            r.push(self.grids[k][idx[k]]);
            k = k + 1;
        }
        r
    }
}

} // verus!
