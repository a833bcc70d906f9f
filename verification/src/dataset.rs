//! An in-memory model of a dataset handle.
//!
//! A dataset carries an optional dataspace (its shape), an optional chunk
//! shape (present exactly when the storage layout is chunked), and the byte
//! size of one element. The model backs the chunk metadata queries without a
//! native library: chunk storage is laid out eagerly, every chunk existing
//! from creation, placed contiguously after a fixed header region.

use crate::layout::chunk_byte_count;
use crate::layout::chunk_count;
use crate::layout::chunk_grid;
use crate::layout::grid_extent;
use crate::layout::lemma_grid_extent_basics;
use crate::layout::lemma_prod_take_bound;
use crate::layout::lemma_prod_take_succ;
use crate::layout::lemma_prod_zero;
use crate::layout::prod;
use crate::layout::seq_to_int;
use vstd::arithmetic::mul::lemma_mul_increases;
use vstd::arithmetic::mul::lemma_mul_is_associative;
use vstd::arithmetic::mul::lemma_mul_is_commutative;
use vstd::arithmetic::mul::lemma_mul_left_inequality;
use vstd::prelude::*;

verus! {

/// The file address at which the model places the first chunk: chunks are
/// laid out contiguously after a fixed header region, as a real file would
/// reserve space for its superblock and object headers.
pub const CHUNK_ADDR_BASE: u64 = 2048;

/// The shape of a dataset: its rank and the extent in each dimension.
pub struct Dataspace {
    dims: Vec<u64>,
}

impl Dataspace {
    /// The extents, one per dimension.
    pub closed spec fn dims_spec(&self) -> Seq<u64> {
        self.dims@
    }

    /// A dataspace with the given extent in each dimension.
    pub fn new(dims: Vec<u64>) -> (r: Dataspace)
        ensures
            r.dims_spec() == dims@,
    {
        Dataspace { dims }
    }

    /// The rank: the number of dimensions.
    pub fn ndim(&self) -> (r: usize)
        ensures
            r == self.dims_spec().len(),
    {
        self.dims.len()
    }

    /// The extent in each dimension.
    pub fn dims(&self) -> (r: &Vec<u64>)
        ensures
            r@ == self.dims_spec(),
    {
        &self.dims
    }
}

/// The inputs from which a chunked dataset can be built: matching ranks of at
/// least 1, nonzero chunk extents and element size, and layout figures that
/// fit the address and size types — the chunk byte size fits `u64`, the chunk
/// count fits `usize`, and the last chunk ends at a representable address.
pub open spec fn valid_chunked(dims: Seq<u64>, chunk: Seq<u64>, elem_size: u64) -> bool {
    &&& dims.len() == chunk.len()
    &&& chunk.len() >= 1
    &&& elem_size >= 1
    &&& (forall|d: int| 0 <= d < chunk.len() ==> chunk[d] >= 1)
    &&& chunk_byte_count(elem_size, chunk) <= u64::MAX
    &&& chunk_count(dims, chunk) <= usize::MAX
    &&& CHUNK_ADDR_BASE + chunk_count(dims, chunk) * chunk_byte_count(elem_size, chunk)
        <= u64::MAX
}

/// An open dataset: a dataspace (unless it has been detached), a chunk shape
/// when the storage layout is chunked, and the element byte size. The chunk
/// count and the byte size of one chunk are computed once, at creation.
pub struct Dataset {
    space: Option<Dataspace>,
    chunk_dims: Option<Vec<u64>>,
    elem_size: u64,
    chunk_byte_len: u64,
    n_chunks_total: u64,
}

impl Dataset {
    /// Whether the storage layout is chunked.
    pub closed spec fn is_chunked_spec(&self) -> bool {
        self.chunk_dims is Some
    }

    /// Whether the dataset still has a dataspace.
    pub closed spec fn has_space(&self) -> bool {
        self.space is Some
    }

    /// The dataspace extents (empty when there is no dataspace).
    pub closed spec fn space_dims(&self) -> Seq<u64> {
        match self.space {
            Some(s) => s.dims_spec(),
            None => Seq::empty(),
        }
    }

    /// The chunk extents (empty when the layout is not chunked).
    pub closed spec fn chunk_dims_spec(&self) -> Seq<u64> {
        match self.chunk_dims {
            Some(cd) => cd@,
            None => Seq::empty(),
        }
    }

    /// The byte size of one element.
    pub closed spec fn elem_size_spec(&self) -> u64 {
        self.elem_size
    }

    /// The internal invariant: the element size is nonzero; when chunked, the
    /// chunk extents are nonzero, of a rank matching the dataspace, and the
    /// cached chunk byte size and chunk count equal the layout figures, which
    /// fit the address and size types.
    pub closed spec fn well_formed(&self) -> bool {
        &&& self.elem_size >= 1
        &&& match self.chunk_dims {
            Some(cd) => {
                &&& cd@.len() >= 1
                &&& (forall|d: int| 0 <= d < cd@.len() ==> cd@[d] >= 1)
                &&& self.chunk_byte_len == chunk_byte_count(self.elem_size, cd@)
                &&& self.chunk_byte_len >= 1
                &&& match self.space {
                    Some(s) => {
                        &&& s.dims_spec().len() == cd@.len()
                        &&& self.n_chunks_total == chunk_count(s.dims_spec(), cd@)
                        &&& self.n_chunks_total <= usize::MAX
                        &&& CHUNK_ADDR_BASE + self.n_chunks_total * self.chunk_byte_len
                            <= u64::MAX
                    },
                    None => true,
                }
            },
            None => self.chunk_byte_len == 0 && self.n_chunks_total == 0,
        }
    }

    /// The well-formedness facts that the chunk queries lean on.
    pub proof fn lemma_well_formed_facts(&self)
        requires
            self.well_formed(),
        ensures
            self.elem_size_spec() >= 1,
            self.is_chunked_spec() ==> self.chunk_dims_spec().len() >= 1,
            self.is_chunked_spec() ==> forall|d: int|
                0 <= d < self.chunk_dims_spec().len() ==> self.chunk_dims_spec()[d] >= 1,
            self.is_chunked_spec() ==> chunk_byte_count(
                self.elem_size_spec(),
                self.chunk_dims_spec(),
            ) >= 1,
            self.is_chunked_spec() && self.has_space() ==> self.chunk_dims_spec().len()
                == self.space_dims().len(),
            self.is_chunked_spec() && self.has_space() ==> chunk_count(
                self.space_dims(),
                self.chunk_dims_spec(),
            ) <= usize::MAX,
            self.is_chunked_spec() && self.has_space() ==> CHUNK_ADDR_BASE + chunk_count(
                self.space_dims(),
                self.chunk_dims_spec(),
            ) * chunk_byte_count(self.elem_size_spec(), self.chunk_dims_spec()) <= u64::MAX,
    {
    }

    /// Whether the storage layout is chunked.
    pub fn is_chunked(&self) -> (r: bool)
        ensures
            r == self.is_chunked_spec(),
    {
        self.chunk_dims.is_some()
    }

    /// The dataspace, if the dataset still has one.
    pub fn space(&self) -> (r: Option<&Dataspace>)
        ensures
            r is Some <==> self.has_space(),
            r matches Some(s) ==> s.dims_spec() == self.space_dims(),
    {
        self.space.as_ref()
    }

    /// The rank: the number of dataspace dimensions, or 0 with no dataspace.
    pub fn ndim(&self) -> (r: usize)
        ensures
            self.has_space() ==> r == self.space_dims().len(),
            !self.has_space() ==> r == 0,
    {
        match &self.space {
            Some(s) => s.ndim(),
            None => 0,
        }
    }

    /// The chunk extents of a chunked dataset.
    pub fn chunk_dims(&self) -> (r: &Vec<u64>)
        requires
            self.is_chunked_spec(),
        ensures
            r@ == self.chunk_dims_spec(),
    {
        match &self.chunk_dims {
            Some(cd) => cd,
            None => unreached(),
        }
    }

    /// The total number of chunks of a chunked dataset with a dataspace.
    pub fn num_chunks_total(&self) -> (r: u64)
        requires
            self.well_formed(),
            self.is_chunked_spec(),
            self.has_space(),
        ensures
            r == chunk_count(self.space_dims(), self.chunk_dims_spec()),
            r <= usize::MAX,
    {
        self.n_chunks_total
    }

    /// The stored byte size of one chunk of a chunked dataset.
    pub fn chunk_bytes(&self) -> (r: u64)
        requires
            self.well_formed(),
            self.is_chunked_spec(),
        ensures
            r == chunk_byte_count(self.elem_size_spec(), self.chunk_dims_spec()),
            r >= 1,
    {
        self.chunk_byte_len
    }

    /// Creates a chunked dataset with the given extents, chunk extents and
    /// element byte size; rejects exactly the inputs that no chunked layout
    /// can carry (see `valid_chunked`).
    pub fn new_chunked(dims: Vec<u64>, chunk_dims: Vec<u64>, elem_size: u64) -> (r: Option<
        Dataset,
    >)
        ensures
            r is Some <==> valid_chunked(dims@, chunk_dims@, elem_size),
            r matches Some(ds) ==> {
                &&& ds.well_formed()
                &&& ds.is_chunked_spec()
                &&& ds.has_space()
                &&& ds.space_dims() == dims@
                &&& ds.chunk_dims_spec() == chunk_dims@
                &&& ds.elem_size_spec() == elem_size
            },
    {
        if dims.len() != chunk_dims.len() || chunk_dims.len() == 0 || elem_size == 0 {
            return None;
        }
        let mut d: usize = 0;
        while d < chunk_dims.len()
            invariant
                d <= chunk_dims@.len(),
                forall|j: int| 0 <= j < d ==> chunk_dims@[j] >= 1,
            decreases chunk_dims@.len() - d,
        {
            if chunk_dims[d] == 0 {
                return None;
            }
            d += 1;
        }
        let cb = match scaled_product(elem_size, &chunk_dims) {
            None => {
                return None;
            },
            Some(v) => v,
        };
        let grids = grid_vec(&dims, &chunk_dims);
        proof {
            assert(seq_to_int(grids@) =~= chunk_grid(dims@, chunk_dims@));
        }
        let mut any_zero = false;
        let mut k: usize = 0;
        while k < grids.len()
            invariant
                k <= grids@.len(),
                any_zero <==> exists|j: int| 0 <= j < k && grids@[j] == 0,
            decreases grids@.len() - k,
        {
            if grids[k] == 0 {
                any_zero = true;
            }
            k += 1;
        }
        let count: u64 = if any_zero {
            proof {
                let j = choose|j: int| 0 <= j < grids@.len() && grids@[j] == 0;
                lemma_prod_zero(seq_to_int(grids@), j);
            }
            0
        } else {
            match scaled_product(1, &grids) {
                None => {
                    return None;
                },
                Some(v) => v,
            }
        };
        if count > usize::MAX as u64 {
            return None;
        }
        let total = match count.checked_mul(cb) {
            None => {
                return None;
            },
            Some(t) => t,
        };
        if total > u64::MAX - CHUNK_ADDR_BASE {
            return None;
        }
        Some(
            Dataset {
                space: Some(Dataspace::new(dims)),
                chunk_dims: Some(chunk_dims),
                elem_size,
                chunk_byte_len: cb,
                n_chunks_total: count,
            },
        )
    }

    /// Creates a dataset with contiguous (non-chunked) storage; rejects only
    /// a zero element size.
    pub fn new_contiguous(dims: Vec<u64>, elem_size: u64) -> (r: Option<Dataset>)
        ensures
            r is Some <==> elem_size >= 1,
            r matches Some(ds) ==> {
                &&& ds.well_formed()
                &&& !ds.is_chunked_spec()
                &&& ds.has_space()
                &&& ds.space_dims() == dims@
                &&& ds.elem_size_spec() == elem_size
            },
    {
        if elem_size == 0 {
            return None;
        }
        Some(
            Dataset {
                space: Some(Dataspace::new(dims)),
                chunk_dims: None,
                elem_size,
                chunk_byte_len: 0,
                n_chunks_total: 0,
            },
        )
    }

    /// Detaches the dataspace, leaving a dataset whose shape can no longer be
    /// queried — the state a handle is in when its dataspace cannot be
    /// retrieved, on which the chunk queries yield no result.
    pub fn detach_space(&mut self)
        ensures
            !final (self).has_space(),
            final (self).is_chunked_spec() == old(self).is_chunked_spec(),
            final (self).chunk_dims_spec() == old(self).chunk_dims_spec(),
            final (self).elem_size_spec() == old(self).elem_size_spec(),
            old(self).well_formed() ==> final (self).well_formed(),
    {
        self.space = None;
    }
}

/// The running product `start * factors[0] * ... * factors[k-1]`, refused
/// exactly when it exceeds `u64::MAX`.
fn scaled_product(start: u64, factors: &Vec<u64>) -> (r: Option<u64>)
    requires
        start >= 1,
        forall|d: int| 0 <= d < factors@.len() ==> factors@[d] >= 1,
    ensures
        r is Some <==> start * prod(seq_to_int(factors@)) <= u64::MAX,
        r matches Some(v) ==> v == start * prod(seq_to_int(factors@)) && v >= 1,
{
    let ghost fs = seq_to_int(factors@);
    proof {
        assert(fs.take(0) =~= Seq::<int>::empty());
    }
    let mut acc: u64 = start;
    let mut d: usize = 0;
    while d < factors.len()
        invariant
            d <= factors@.len(),
            start >= 1,
            fs == seq_to_int(factors@),
            forall|j: int| 0 <= j < fs.len() ==> fs[j] >= 1,
            acc == start * prod(fs.take(d as int)),
            acc >= 1,
        decreases factors@.len() - d,
    {
        let f = factors[d];
        proof {
            lemma_prod_take_succ(fs, d as int);
            lemma_mul_is_associative(start as int, prod(fs.take(d as int)), f as int);
            lemma_prod_take_bound(fs, d as int + 1);
            lemma_mul_left_inequality(start as int, prod(fs.take(d as int + 1)), prod(fs));
            lemma_mul_increases(prod(fs.take(d as int + 1)), start as int);
            lemma_mul_is_commutative(prod(fs.take(d as int + 1)), start as int);
        }
        acc = match acc.checked_mul(f) {
            None => {
                return None;
            },
            Some(v) => v,
        };
        d += 1;
    }
    proof {
        assert(fs.take(factors@.len() as int) =~= fs);
    }
    Some(acc)
}

/// The per-dimension chunk grid of a chunked dataset, as executable values:
/// `grid_extent` of each dimension, computed without overflow.
fn grid_vec(dims: &Vec<u64>, chunk: &Vec<u64>) -> (r: Vec<u64>)
    requires
        dims@.len() == chunk@.len(),
        forall|d: int| 0 <= d < chunk@.len() ==> chunk@[d] >= 1,
    ensures
        r@.len() == dims@.len(),
        forall|d: int| 0 <= d < r@.len() ==> #[trigger] r@[d] == grid_extent(dims@[d], chunk@[d]),
{
    let mut r: Vec<u64> = Vec::new();
    let mut d: usize = 0;
    while d < dims.len()
        invariant
            d <= dims@.len(),
            dims@.len() == chunk@.len(),
            forall|j: int| 0 <= j < chunk@.len() ==> chunk@[j] >= 1,
            r@.len() == d,
            forall|j: int| 0 <= j < d ==> #[trigger] r@[j] == grid_extent(dims@[j], chunk@[j]),
        decreases dims@.len() - d,
    {
        let e = dims[d];
        let c = chunk[d];
        proof {
            lemma_grid_extent_basics(e, c);
        }
        let g = if e % c != 0 {
            e / c + 1
        } else {
            e / c
        };
        r.push(g);
        d += 1;
    }
    r
}

} // verus!
