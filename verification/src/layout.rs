//! The mathematics of the chunked-storage layout.
//!
//! A chunked dataset of extents `dims` and chunk extents `chunk` is covered by
//! a grid of chunks, `ceil(dims[d] / chunk[d])` of them along dimension `d`.
//! Chunks are numbered in row-major order (the last dimension varies fastest),
//! and chunk number `i` begins at offset `coordinate(i, d) * chunk[d]` in each
//! dimension `d`. These spec functions define that layout; the lemmas state
//! the laws the chunk queries are proved against.

use vstd::arithmetic::div_mod::lemma_div_decreases;
use vstd::arithmetic::div_mod::lemma_div_nonincreasing;
use vstd::arithmetic::div_mod::lemma_div_pos_is_pos;
use vstd::arithmetic::div_mod::lemma_fundamental_div_mod;
use vstd::arithmetic::div_mod::lemma_fundamental_div_mod_converse;
use vstd::arithmetic::div_mod::lemma_mod_division_less_than_divisor;
use vstd::arithmetic::div_mod::lemma_mod_multiples_basic;
use vstd::arithmetic::div_mod::lemma_multiply_divide_lt;
use vstd::arithmetic::mul::lemma_mul_by_zero_is_zero;
use vstd::arithmetic::mul::lemma_mul_increases;
use vstd::arithmetic::mul::lemma_mul_inequality;
use vstd::arithmetic::mul::lemma_mul_is_commutative;
use vstd::arithmetic::mul::lemma_mul_is_distributive_add_other_way;
use vstd::arithmetic::mul::lemma_mul_is_distributive_sub;
use vstd::arithmetic::mul::lemma_mul_nonnegative;
use vstd::prelude::*;

verus! {

/// A sequence of unsigned extents, as mathematical integers.
pub open spec fn seq_to_int(s: Seq<u64>) -> Seq<int> {
    Seq::new(s.len(), |d: int| s[d] as int)
}

/// The product of a sequence of integers (1 for the empty sequence).
pub open spec fn prod(s: Seq<int>) -> int
    decreases s.len(),
{
    if s.len() == 0 {
        1
    } else {
        prod(s.drop_last()) * s.last()
    }
}

/// How many chunks of extent `chunk` cover `extent` elements along one
/// dimension: the ceiling of `extent / chunk`.
pub open spec fn grid_extent(extent: u64, chunk: u64) -> int {
    (extent + chunk - 1) / (chunk as int)
}

/// The chunk grid: how many chunks stand along each dimension.
pub open spec fn chunk_grid(dims: Seq<u64>, chunk: Seq<u64>) -> Seq<int> {
    Seq::new(dims.len(), |d: int| grid_extent(dims[d], chunk[d]))
}

/// The total number of chunks of a chunked dataset.
pub open spec fn chunk_count(dims: Seq<u64>, chunk: Seq<u64>) -> int {
    prod(chunk_grid(dims, chunk))
}

/// The stored byte size of one chunk: every chunk holds exactly
/// `prod(chunk)` elements of `elem_size` bytes each.
pub open spec fn chunk_byte_count(elem_size: u64, chunk: Seq<u64>) -> int {
    elem_size * prod(seq_to_int(chunk))
}

/// The 0-based logical position, in each dimension, of the first element of
/// chunk number `i`, chunks being numbered in row-major order.
pub open spec fn chunk_offsets(dims: Seq<u64>, chunk: Seq<u64>, i: int) -> Seq<int>
    decreases dims.len(),
{
    if dims.len() == 0 {
        Seq::empty()
    } else {
        let g = grid_extent(dims.last(), chunk.last());
        chunk_offsets(dims.drop_last(), chunk.drop_last(), i / g).push(
            (i % g) * (chunk.last() as int),
        )
    }
}

/// What a chunk offset owes the layout in one dimension: it is a nonnegative
/// multiple of the chunk extent and lies inside the dataset extent.
pub open spec fn offset_aligned(off: int, chunk_d: u64, dim_d: u64) -> bool {
    &&& 0 <= off
    &&& off % (chunk_d as int) == 0
    &&& off < dim_d
}

/// The one-dimensional grid extent is nonnegative, is zero exactly on a zero
/// extent, never exceeds the extent, and equals the division-plus-remainder
/// form that executable code computes.
pub proof fn lemma_grid_extent_basics(extent: u64, chunk: u64)
    requires
        chunk >= 1,
    ensures
        0 <= grid_extent(extent, chunk) <= extent,
        extent >= 1 <==> grid_extent(extent, chunk) >= 1,
        grid_extent(extent, chunk) == extent as int / chunk as int + (
        if extent as int % chunk as int != 0 {
            1int
        } else {
            0int
        }),
{
    let e = extent as int;
    let c = chunk as int;
    let q = e / c;
    let r = e % c;
    lemma_fundamental_div_mod(e, c);
    lemma_mod_division_less_than_divisor(e, c);
    lemma_div_pos_is_pos(e, c);
    assert(c * q == q * c) by {
        lemma_mul_is_commutative(c, q);
    }
    if r == 0 {
        lemma_fundamental_div_mod_converse(e + c - 1, c, q, c - 1);
    } else {
        assert((q + 1) * c == q * c + 1 * c) by {
            lemma_mul_is_distributive_add_other_way(c, q, 1);
        }
        lemma_fundamental_div_mod_converse(e + c - 1, c, q + 1, r - 1);
    }
    lemma_div_nonincreasing(e, c);
    lemma_mul_by_zero_is_zero(c);
    if extent >= 1 && r != 0 {
        assert(c >= 2) by {
            lemma_mod_division_less_than_divisor(e, 1);
        }
        lemma_div_decreases(e, c);
    }
}

/// A chunk whose grid coordinate along one dimension is `t` starts at offset
/// `t * chunk`, which lies strictly inside the extent and is a multiple of
/// the chunk extent.
pub proof fn lemma_chunk_start_in_extent(extent: u64, chunk: u64, t: int)
    requires
        chunk >= 1,
        0 <= t < grid_extent(extent, chunk),
    ensures
        offset_aligned(t * (chunk as int), chunk, extent),
{
    let e = extent as int;
    let c = chunk as int;
    let g = grid_extent(extent, chunk);
    lemma_fundamental_div_mod(e + c - 1, c);
    lemma_mod_division_less_than_divisor(e + c - 1, c);
    assert(c * g == c * (g - 1) + c * 1) by {
        lemma_mul_is_distributive_sub(c, g, 1);
    }
    lemma_mul_inequality(t, g - 1, c);
    assert((g - 1) * c == c * (g - 1)) by {
        lemma_mul_is_commutative(g - 1, c);
    }
    lemma_mod_multiples_basic(t, c);
    lemma_mul_nonnegative(t, c);
}

/// A product of nonnegative integers is nonnegative.
pub proof fn lemma_prod_nonneg(s: Seq<int>)
    requires
        forall|d: int| 0 <= d < s.len() ==> s[d] >= 0,
    ensures
        prod(s) >= 0,
    decreases s.len(),
{
    if s.len() > 0 {
        lemma_prod_nonneg(s.drop_last());
        lemma_mul_nonnegative(prod(s.drop_last()), s.last());
    }
}

/// A product of positive integers is positive.
pub proof fn lemma_prod_pos(s: Seq<int>)
    requires
        forall|d: int| 0 <= d < s.len() ==> s[d] >= 1,
    ensures
        prod(s) >= 1,
    decreases s.len(),
{
    if s.len() > 0 {
        lemma_prod_pos(s.drop_last());
        lemma_mul_increases(prod(s.drop_last()), s.last());
    }
}

/// A product with a zero factor is zero.
pub proof fn lemma_prod_zero(s: Seq<int>, k: int)
    requires
        0 <= k < s.len(),
        s[k] == 0,
    ensures
        prod(s) == 0,
    decreases s.len(),
{
    if k < s.len() - 1 {
        lemma_prod_zero(s.drop_last(), k);
    }
}

/// Taking one more factor multiplies the partial product by that factor.
pub proof fn lemma_prod_take_succ(s: Seq<int>, k: int)
    requires
        0 <= k < s.len(),
    ensures
        prod(s.take(k + 1)) == prod(s.take(k)) * s[k],
{
    assert(s.take(k + 1).drop_last() =~= s.take(k));
    assert(s.take(k + 1).last() == s[k]);
}

/// With factors of at least 1, a partial product is at least 1 and never
/// exceeds the full product.
pub proof fn lemma_prod_take_bound(s: Seq<int>, k: int)
    requires
        0 <= k <= s.len(),
        forall|d: int| 0 <= d < s.len() ==> s[d] >= 1,
    ensures
        1 <= prod(s.take(k)) <= prod(s),
    decreases s.len() - k,
{
    lemma_prod_pos(s.take(k));
    if k == s.len() {
        assert(s.take(k) =~= s);
    } else {
        lemma_prod_take_succ(s, k);
        lemma_prod_take_bound(s, k + 1);
        lemma_mul_increases(s[k], prod(s.take(k)));
        lemma_mul_is_commutative(prod(s.take(k)), s[k]);
    }
}

/// Every chunk-offset sequence has exactly one entry per dataset dimension:
/// a chunk-info result always carries the dataset's rank.
pub proof fn lemma_chunk_offsets_rank(dims: Seq<u64>, chunk: Seq<u64>, i: int)
    ensures
        chunk_offsets(dims, chunk, i).len() == dims.len(),
    decreases dims.len(),
{
    if dims.len() > 0 {
        let g = grid_extent(dims.last(), chunk.last());
        lemma_chunk_offsets_rank(dims.drop_last(), chunk.drop_last(), i / g);
    }
}

/// The offsets of every valid chunk index agree with the declared chunk
/// shape: in each dimension the offset is a nonnegative multiple of the chunk
/// extent and lies inside the dataset extent.
pub proof fn lemma_chunk_offsets_aligned(dims: Seq<u64>, chunk: Seq<u64>, i: int)
    requires
        dims.len() == chunk.len(),
        forall|d: int| 0 <= d < chunk.len() ==> chunk[d] >= 1,
        0 <= i < chunk_count(dims, chunk),
    ensures
        forall|d: int| 0 <= d < dims.len() ==> offset_aligned(
            #[trigger] chunk_offsets(dims, chunk, i)[d],
            chunk[d],
            dims[d],
        ),
    decreases dims.len(),
{
    lemma_chunk_offsets_rank(dims, chunk, i);
    if dims.len() > 0 {
        let n = dims.len() as int;
        let g = grid_extent(dims.last(), chunk.last());
        let grids = chunk_grid(dims, chunk);
        let front = chunk_grid(dims.drop_last(), chunk.drop_last());
        assert(front =~= grids.drop_last());
        let p = prod(front);
        assert(chunk_count(dims, chunk) == p * g);
        assert forall|j: int| 0 <= j < grids.len() implies grids[j] >= 0 by {
            lemma_grid_extent_basics(dims[j], chunk[j]);
        }
        lemma_prod_nonneg(front);
        lemma_grid_extent_basics(dims.last(), chunk.last());
        assert(g >= 1 && p >= 1) by {
            lemma_mul_by_zero_is_zero(p);
            lemma_mul_by_zero_is_zero(g);
            if g == 0 {
                lemma_mul_is_commutative(p, g);
            }
        }
        lemma_mod_division_less_than_divisor(i, g);
        lemma_div_pos_is_pos(i, g);
        assert(i < g * p) by {
            lemma_mul_is_commutative(p, g);
        }
        lemma_multiply_divide_lt(i, g, p);
        lemma_chunk_offsets_aligned(dims.drop_last(), chunk.drop_last(), i / g);
        lemma_chunk_start_in_extent(dims.last(), chunk.last(), i % g);
        let offs = chunk_offsets(dims, chunk, i);
        let rec = chunk_offsets(dims.drop_last(), chunk.drop_last(), i / g);
        lemma_chunk_offsets_rank(dims.drop_last(), chunk.drop_last(), i / g);
        assert forall|d: int| 0 <= d < n implies offset_aligned(
            #[trigger] offs[d],
            chunk[d],
            dims[d],
        ) by {
            if d < n - 1 {
                assert(offs[d] == rec[d]);
                assert(offset_aligned(rec[d], chunk.drop_last()[d], dims.drop_last()[d]));
            } else {
                assert(offs[d] == (i % g) * (chunk.last() as int));
            }
        }
    }
}

} // verus!
