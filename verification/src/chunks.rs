//! Chunk metadata queries.
//!
//! `get_num_chunks` and `chunk_info` answer the two chunk queries a dataset
//! handle offers: how many chunks a chunked dataset stores, and where chunk
//! number `i` lies (its per-dimension offsets, filter mask, file address and
//! byte size). Both yield no result — rather than an error — when the dataset
//! is not chunked, has no dataspace, or the index is out of range.

use crate::dataset::CHUNK_ADDR_BASE;
use crate::dataset::Dataset;
use crate::layout::chunk_byte_count;
use crate::layout::chunk_count;
use crate::layout::chunk_grid;
use crate::layout::chunk_offsets;
use crate::layout::lemma_chunk_offsets_rank;
use crate::layout::lemma_chunk_start_in_extent;
use crate::layout::lemma_grid_extent_basics;
use crate::layout::lemma_prod_nonneg;
use crate::layout::lemma_prod_take_succ;
use crate::layout::prod;
use crate::layout::seq_to_int;
use vstd::arithmetic::div_mod::lemma_div_pos_is_pos;
use vstd::arithmetic::div_mod::lemma_mod_division_less_than_divisor;
use vstd::arithmetic::div_mod::lemma_multiply_divide_lt;
use vstd::arithmetic::mul::lemma_mul_by_zero_is_zero;
use vstd::arithmetic::mul::lemma_mul_inequality;
use vstd::arithmetic::mul::lemma_mul_is_commutative;
use vstd::prelude::*;

verus! {

/// Whether the filter at pipeline position `k` is flagged in `mask`: bit `k`
/// of the mask is on, which marks the filter as skipped for that chunk.
pub open spec fn filter_bit(mask: u32, k: u32) -> bool {
    mask & (1u32 << k) != 0
}

/// Information on one stored chunk of a dataset.
#[derive(Clone, Debug, PartialEq, Eq)]
pub struct ChunkInfo {
    /// 0-based logical position of the chunk's first element in each
    /// dimension; one entry per dataset dimension.
    pub offset: Vec<u64>,
    /// Filter mask that indicates which filters were used with the chunk when
    /// written. A zero value indicates that all enabled filters are applied
    /// on the chunk. A filter is skipped if the bit corresponding to the
    /// filter's position in the pipeline (0 <= position < 32) is turned on.
    pub filter_mask: u32,
    /// Chunk address in the file.
    pub addr: u64,
    /// Chunk size in bytes.
    pub size: u64,
}

impl ChunkInfo {
    /// A blank record for a dataset of rank `ndim`: zeroed offsets, filter
    /// mask, address and size.
    pub fn new(ndim: usize) -> (r: Self)
        ensures
            r.offset@.len() == ndim,
            forall|j: int| 0 <= j < ndim ==> r.offset@[j] == 0,
            r.filter_mask == 0,
            r.addr == 0,
            r.size == 0,
    {
        let mut offset: Vec<u64> = Vec::new();
        while offset.len() < ndim
            invariant
                offset@.len() <= ndim,
                forall|j: int| 0 <= j < offset@.len() ==> offset@[j] == 0,
            decreases ndim - offset@.len(),
        {
            offset.push(0);
        }
        ChunkInfo { offset, filter_mask: 0, addr: 0, size: 0 }
    }

    /// Returns the positional indices of disabled filters: every pipeline
    /// position whose bit is on in the filter mask, in ascending order.
    pub fn disabled_filters(&self) -> (r: Vec<usize>)
        ensures
            forall|j: int| 0 <= j < r@.len() ==> #[trigger] r@[j] < 32,
            forall|j: int|
                0 <= j < r@.len() ==> filter_bit(self.filter_mask, #[trigger] r@[j] as u32),
            forall|k: u32| k < 32 && #[trigger] filter_bit(self.filter_mask, k) ==> r@.contains(
                k as usize,
            ),
            forall|j1: int, j2: int| 0 <= j1 < j2 < r@.len() ==> r@[j1] < r@[j2],
    {
        let mut r: Vec<usize> = Vec::new();
        let mut i: u32 = 0;
        while i < 32
            invariant
                i <= 32,
                forall|j: int| 0 <= j < r@.len() ==> #[trigger] r@[j] < i,
                forall|j: int|
                    0 <= j < r@.len() ==> filter_bit(self.filter_mask, #[trigger] r@[j] as u32),
                forall|k: u32|
                    k < i && #[trigger] filter_bit(self.filter_mask, k) ==> r@.contains(k as usize),
                forall|j1: int, j2: int| 0 <= j1 < j2 < r@.len() ==> r@[j1] < r@[j2],
            decreases 32 - i,
        {
            if self.filter_mask & (1u32 << i) != 0 {
                let ghost r0 = r@;
                r.push(i as usize);
                proof {
                    assert forall|k: u32|
                        k < i + 1 && #[trigger] filter_bit(self.filter_mask, k) implies r@.contains(
                        k as usize,
                    ) by {
                        if k == i {
                            assert(r@[r@.len() - 1] == k as usize);
                        } else {
                            let w = choose|w: int| 0 <= w < r0.len() && r0[w] == k as usize;
                            assert(r@[w] == k as usize);
                        }
                    }
                }
            }
            i += 1;
        }
        r
    }
}

/// Queries the total number of chunks of the dataset's storage layout.
///
/// Yields the chunk count exactly when the dataset is chunked and has a
/// dataspace, and no result otherwise — a non-chunked dataset is
/// inapplicable, not an error.
pub fn get_num_chunks(ds: &Dataset) -> (r: Option<usize>)
    requires
        ds.well_formed(),
    ensures
        r is Some <==> ds.is_chunked_spec() && ds.has_space(),
        r matches Some(n) ==> n == chunk_count(ds.space_dims(), ds.chunk_dims_spec()),
{
    if !ds.is_chunked() {
        return None;
    }
    match ds.space() {
        None => None,
        Some(_) => {
            let total = ds.num_chunks_total();
            Some(total as usize)
        },
    }
}

/// Queries placement information for the chunk at the given 0-based index.
///
/// Yields a record exactly when the dataset is chunked, has a dataspace, and
/// the index is in range; the record's offsets are those of chunk number
/// `index` in row-major order, its filter mask is zero (no filter skipped),
/// and its address and nonzero byte size are where and how large the model
/// file stores that chunk. A non-chunked dataset, a missing dataspace and an
/// out-of-range index all yield no result, indistinguishably.
pub fn chunk_info(ds: &Dataset, index: usize) -> (r: Option<ChunkInfo>)
    requires
        ds.well_formed(),
    ensures
        r is Some <==> ds.is_chunked_spec() && ds.has_space() && (index as int) < chunk_count(
            ds.space_dims(),
            ds.chunk_dims_spec(),
        ),
        r matches Some(info) ==> {
            &&& info.offset@.len() == ds.space_dims().len()
            &&& forall|d: int|
                0 <= d < ds.space_dims().len() ==> #[trigger] info.offset@[d] == chunk_offsets(
                    ds.space_dims(),
                    ds.chunk_dims_spec(),
                    index as int,
                )[d]
            &&& info.filter_mask == 0
            &&& info.size == chunk_byte_count(ds.elem_size_spec(), ds.chunk_dims_spec())
            &&& info.size >= 1
            &&& info.addr == CHUNK_ADDR_BASE + (index as int) * chunk_byte_count(
                ds.elem_size_spec(),
                ds.chunk_dims_spec(),
            )
        },
{
    if !ds.is_chunked() {
        return None;
    }
    let s = match ds.space() {
        None => {
            return None;
        },
        Some(s) => s,
    };
    let total = ds.num_chunks_total();
    if index as u64 >= total {
        return None;
    }
    let rank = s.ndim();
    let dims = s.dims();
    let cd = ds.chunk_dims();
    let cb = ds.chunk_bytes();
    proof {
        ds.lemma_well_formed_facts();
    }
    let ghost dseq = ds.space_dims();
    let ghost cseq = ds.chunk_dims_spec();
    let ghost grids = chunk_grid(dseq, cseq);
    let mut info = ChunkInfo::new(rank);
    let mut idx: u64 = index as u64;
    let mut d: usize = rank;
    proof {
        assert(dseq.take(rank as int) =~= dseq);
        assert(cseq.take(rank as int) =~= cseq);
        assert(grids.take(rank as int) =~= grids);
        assert(chunk_offsets(dseq, cseq, index as int) + seq_to_int(info.offset@).subrange(
            rank as int,
            rank as int,
        ) =~= chunk_offsets(dseq, cseq, index as int));
        assert forall|j: int| 0 <= j < grids.len() implies #[trigger] grids[j] >= 0 by {
            lemma_grid_extent_basics(dseq[j], cseq[j]);
        }
    }
    while d > 0
        invariant
            d <= rank,
            rank == dseq.len(),
            rank == cseq.len(),
            dims@ == dseq,
            cd@ == cseq,
            grids == chunk_grid(dseq, cseq),
            forall|j: int| 0 <= j < cseq.len() ==> #[trigger] cseq[j] >= 1,
            forall|j: int| 0 <= j < grids.len() ==> #[trigger] grids[j] >= 0,
            info.offset@.len() == rank,
            info.filter_mask == 0,
            (idx as int) < prod(grids.take(d as int)),
            chunk_offsets(dseq, cseq, index as int) == chunk_offsets(
                dseq.take(d as int),
                cseq.take(d as int),
                idx as int,
            ) + seq_to_int(info.offset@).subrange(d as int, rank as int),
        decreases d,
    {
        d -= 1;
        let e = dims[d];
        let c = cd[d];
        proof {
            lemma_grid_extent_basics(e, c);
            lemma_prod_take_succ(grids, d as int);
            lemma_prod_nonneg(grids.take(d as int));
            lemma_mul_by_zero_is_zero(prod(grids.take(d as int)));
            lemma_mul_by_zero_is_zero(grids[d as int]);
            lemma_mod_division_less_than_divisor(idx as int, grids[d as int]);
            lemma_div_pos_is_pos(idx as int, grids[d as int]);
            lemma_mul_is_commutative(prod(grids.take(d as int)), grids[d as int]);
            lemma_multiply_divide_lt(idx as int, grids[d as int], prod(grids.take(d as int)));
            lemma_chunk_start_in_extent(e, c, idx as int % grids[d as int]);
        }
        let q = e / c;
        let g = if e % c != 0 {
            q + 1
        } else {
            q
        };
        let ghost idx0: u64 = idx;
        let coord = idx % g;
        let off = coord * c;
        let ghost info_before = info;
        info.offset[d] = off;
        idx = idx / g;
        proof {
            assert(g == grids[d as int]);
            assert(dseq.take(d as int + 1).drop_last() =~= dseq.take(d as int));
            assert(cseq.take(d as int + 1).drop_last() =~= cseq.take(d as int));
            let rec = chunk_offsets(dseq.take(d as int), cseq.take(d as int), idx as int);
            lemma_chunk_offsets_rank(dseq.take(d as int), cseq.take(d as int), idx as int);
            assert(chunk_offsets(dseq.take(d as int + 1), cseq.take(d as int + 1), idx0 as int)
                == rec.push((coord as int) * (c as int)));
            assert(rec.push((coord as int) * (c as int)) + seq_to_int(
                info_before.offset@,
            ).subrange(d as int + 1, rank as int) =~= rec + seq_to_int(info.offset@).subrange(
                d as int,
                rank as int,
            ));
        }
    }
    proof {
        assert(dseq.take(0) =~= Seq::<u64>::empty());
        assert(cseq.take(0) =~= Seq::<u64>::empty());
        assert(seq_to_int(info.offset@).subrange(0, rank as int) =~= seq_to_int(info.offset@));
        lemma_mul_inequality(index as int, total as int, cb as int);
        lemma_mul_is_commutative(total as int, cb as int);
        lemma_mul_is_commutative(index as int, cb as int);
    }
    info.addr = CHUNK_ADDR_BASE + (index as u64) * cb;
    info.size = cb;
    Some(info)
}

} // verus!
