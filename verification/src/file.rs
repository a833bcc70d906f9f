//! An in-memory file: a container of datasets backed by memory alone.
//!
//! Test setups want an isolated file that leaves no artifact on disk; this
//! model file holds its datasets directly, so creating one can never collide
//! with an existing name or touch storage.

use crate::dataset::Dataset;
use crate::dataset::valid_chunked;
use vstd::prelude::*;

verus! {

/// A file backed by memory alone, holding the datasets created in it.
pub struct File {
    datasets: Vec<Dataset>,
}

impl File {
    /// The datasets the file holds, in creation order.
    pub closed spec fn datasets_spec(&self) -> Seq<Dataset> {
        self.datasets@
    }

    /// Every dataset the file holds is well-formed.
    pub open spec fn well_formed(&self) -> bool {
        forall|i: int|
            0 <= i < self.datasets_spec().len() ==> (#[trigger] self.datasets_spec()[i]).well_formed()
    }

    /// A fresh in-memory file with no datasets.
    pub fn in_memory() -> (r: File)
        ensures
            r.well_formed(),
            r.datasets_spec().len() == 0,
    {
        File { datasets: Vec::new() }
    }

    /// How many datasets the file holds.
    pub fn num_datasets(&self) -> (r: usize)
        ensures
            r == self.datasets_spec().len(),
    {
        self.datasets.len()
    }

    /// Creates a chunked dataset in the file and returns its index among the
    /// file's datasets; rejects exactly the shape arguments that no chunked
    /// layout can carry (see `valid_chunked`), leaving the file unchanged.
    pub fn create_chunked_dataset(
        &mut self,
        dims: Vec<u64>,
        chunk_dims: Vec<u64>,
        elem_size: u64,
    ) -> (r: Option<usize>)
        requires
            old(self).well_formed(),
        ensures
            final (self).well_formed(),
            r is Some <==> valid_chunked(dims@, chunk_dims@, elem_size),
            r matches Some(i) ==> {
                &&& i == old(self).datasets_spec().len()
                &&& final (self).datasets_spec().len() == old(self).datasets_spec().len() + 1
                &&& (forall|j: int|
                    0 <= j < old(self).datasets_spec().len()
                        ==> final (self).datasets_spec()[j] == old(self).datasets_spec()[j])
                &&& final (self).datasets_spec()[i as int].well_formed()
                &&& final (self).datasets_spec()[i as int].is_chunked_spec()
                &&& final (self).datasets_spec()[i as int].has_space()
                &&& final (self).datasets_spec()[i as int].space_dims() == dims@
                &&& final (self).datasets_spec()[i as int].chunk_dims_spec() == chunk_dims@
                &&& final (self).datasets_spec()[i as int].elem_size_spec() == elem_size
            },
            r is None ==> *final (self) == *old(self),
    {
        match Dataset::new_chunked(dims, chunk_dims, elem_size) {
            None => None,
            Some(ds) => {
                let i = self.datasets.len();
                self.datasets.push(ds);
                Some(i)
            },
        }
    }

    /// The dataset at the given index, or no result when the index is out of
    /// range.
    pub fn dataset(&self, i: usize) -> (r: Option<&Dataset>)
        ensures
            r is Some <==> i < self.datasets_spec().len(),
            r matches Some(ds) ==> *ds == self.datasets_spec()[i as int],
    {
        if i < self.datasets.len() {
            Some(&self.datasets[i])
        } else {
            None
        }
    }
}

} // verus!
