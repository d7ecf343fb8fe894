//! A dense tensor: a flat buffer laid out row-major over a `Shape`.
use vstd::prelude::*;

use crate::error::QuestPlusError;
use crate::shape::{all_positive, flat_offset, grid_size, in_bounds, Shape};

verus! {

/// Cells of type `T` over a grid, stored row-major.
pub struct Tensor<T> {
    shape: Shape,
    data: Vec<T>,
}

impl<T> Tensor<T> {
    /// Extents of the grid.
    pub closed spec fn dims(&self) -> Seq<usize> {
        self.shape@
    }

    /// The cells in row-major order.
    pub closed spec fn cells(&self) -> Seq<T> {
        self.data@
    }

    /// The buffer holds exactly one value per cell of a well-formed shape.
    pub closed spec fn wf(&self) -> bool {
        &&& self.shape.wf()
        &&& self.data@.len() == grid_size(self.shape@)
    }

    /// A well-formed tensor has one cell per point of a grid with positive
    /// extents, and at most `usize::MAX` cells.
    pub proof fn lemma_wf(&self)
        requires
            self.wf(),
        ensures
            all_positive(self.dims()),
            self.cells().len() == grid_size(self.dims()),
            1 <= grid_size(self.dims()) <= usize::MAX,
    {
        self.shape.lemma_wf();
    }

    /// The value at index tuple `idx`.
    pub open spec fn at(&self, idx: Seq<usize>) -> T {
        self.cells()[flat_offset(self.dims(), idx) as int]
    }

    /// A tensor over `shape` holding `data` in row-major order. Fails with
    /// `ShapeInvariantViolation` when `data` does not have one value per cell.
    pub fn from_shape_vec(shape: Shape, data: Vec<T>) -> (r: Result<Tensor<T>, QuestPlusError>)
        requires
            shape.wf(),
        ensures
            r is Ok <==> data@.len() == grid_size(shape@),
            r is Ok ==> (r->Ok_0.wf() && r->Ok_0.dims() == shape@ && r->Ok_0.cells() == data@),
            r is Err ==> r->Err_0 == QuestPlusError::ShapeInvariantViolation,
    {
        if data.len() == shape.size() {
            Ok(Tensor { shape, data })
        } else {
            Err(QuestPlusError::ShapeInvariantViolation)
        }
    }

    /// The shape.
    pub fn shape(&self) -> (r: &Shape)
        requires
            self.wf(),
        ensures
            r@ == self.dims(),
            r.wf(),
    {
        &self.shape
    }

    /// Number of cells.
    pub fn len(&self) -> (r: usize)
        requires
            self.wf(),
        ensures
            r == self.cells().len(),
            r == grid_size(self.dims()),
    {
        self.data.len()
    }

    /// The cells in row-major order.
    pub fn as_vec(&self) -> (r: &Vec<T>)
        ensures
            r@ == self.cells(),
    {
        &self.data
    }

    /// The value at row-major position `f`.
    pub fn get_flat(&self, f: usize) -> (r: &T)
        requires
            self.wf(),
            f < self.cells().len(),
        ensures
            *r == self.cells()[f as int],
    {
        &self.data[f]
    }

    /// The value at index tuple `idx`.
    pub fn get(&self, idx: &Vec<usize>) -> (r: &T)
        requires
            self.wf(),
            in_bounds(self.dims(), idx@),
        ensures
            *r == self.at(idx@),
    {
        let f = self.shape.offset(idx);
        &self.data[f]
    }

    /// Replaces the value at index tuple `idx`; every other cell keeps its value.
    pub fn set(&mut self, idx: &Vec<usize>, v: T)
        requires
            old(self).wf(),
            in_bounds(old(self).dims(), idx@),
        ensures
            final(self).wf(),
            final(self).dims() == old(self).dims(),
            final(self).cells() == old(self).cells().update(
                flat_offset(old(self).dims(), idx@) as int,
                v,
            ),
    {
        let f = self.shape.offset(idx);
        self.data.set(f, v);
    }

    /// Replaces every cell, keeping the shape.
    pub fn assign(&mut self, data: Vec<T>)
        requires
            old(self).wf(),
            data@.len() == old(self).cells().len(),
        ensures
            final(self).wf(),
            final(self).dims() == old(self).dims(),
            final(self).cells() == data@,
    {
        self.data = data;
    }

    /// Gives up the buffer, cells in row-major order.
    pub fn into_vec(self) -> (r: Vec<T>)
        ensures
            r@ == self.cells(),
    {
        self.data
    }
}

} // verus!
