//! Topological side: Euler characteristics from Betti numbers.

use vstd::prelude::*;

verus! {

/// `(-1)^k · x`.
pub open spec fn signed(k: int, x: int) -> int {
    if k % 2 == 0 { x } else { -x }
}

/// `Σ_k (-1)^k b_k`, the alternating sum of a sequence of Betti numbers.
pub open spec fn alternating_sum(b: Seq<usize>) -> int
    decreases b.len(),
{
    if b.len() == 0 {
        0
    } else {
        alternating_sum(b.drop_last()) + signed(b.len() - 1, b.last() as int)
    }
}

/// Every partial alternating sum of `b` fits in an `i64`, and so does each entry.
pub open spec fn fits_i64(b: Seq<usize>) -> bool {
    &&& forall|k: int| 0 <= k < b.len() ==> #[trigger] b[k] <= i64::MAX
    &&& forall|k: int|
        0 <= k <= b.len() ==> i64::MIN <= #[trigger] alternating_sum(b.take(k)) <= i64::MAX
}

/// Euler characteristic `χ = Σ (-1)^k b_k` of a space with the given Betti numbers.
pub fn euler_characteristic(betti_numbers: &[usize]) -> (chi: i64)
    requires
        fits_i64(betti_numbers@),
    ensures
        chi == alternating_sum(betti_numbers@),
{
    let n = betti_numbers.len();
    let mut chi: i64 = 0;
    let mut k: usize = 0;
    assert(betti_numbers@.take(0) =~= Seq::<usize>::empty());
    while k < n
        invariant
            n == betti_numbers@.len(),
            k <= n,
            fits_i64(betti_numbers@),
            chi == alternating_sum(betti_numbers@.take(k as int)),
        decreases n - k,
    {
        let b = betti_numbers[k];
        assert(betti_numbers@.take(k + 1).drop_last() =~= betti_numbers@.take(k as int));
        assert(i64::MIN <= alternating_sum(betti_numbers@.take(k + 1)) <= i64::MAX);
        if k % 2 == 0 {
            chi = chi + b as i64;
        } else {
            chi = chi - b as i64;
        }
        k = k + 1;
    }
    assert(betti_numbers@.take(n as int) =~= betti_numbers@);
    chi
}

/// Whether `euler_characteristic` can compute `χ` of these Betti numbers in
/// an `i64`: each Betti number and each partial alternating sum fits.
pub fn euler_characteristic_in_range(betti_numbers: &[usize]) -> (ok: bool)
    ensures
        ok == fits_i64(betti_numbers@),
{
    let n = betti_numbers.len();
    let mut acc: i64 = 0;
    let mut k: usize = 0;
    assert(betti_numbers@.take(0) =~= Seq::<usize>::empty());
    while k < n
        invariant
            n == betti_numbers@.len(),
            k <= n,
            acc == alternating_sum(betti_numbers@.take(k as int)),
            forall|j: int| 0 <= j < k ==> #[trigger] betti_numbers@[j] <= i64::MAX,
            forall|j: int|
                0 <= j <= k ==> i64::MIN <= #[trigger] alternating_sum(betti_numbers@.take(j))
                    <= i64::MAX,
        decreases n - k,
    {
        let b = betti_numbers[k];
        if b as u128 > i64::MAX as u128 {
            return false;
        }
        assert(betti_numbers@.take(k + 1).drop_last() =~= betti_numbers@.take(k as int));
        let next: i128 = if k % 2 == 0 {
            acc as i128 + b as i128
        } else {
            acc as i128 - b as i128
        };
        assert(betti_numbers@.take(k + 1).len() == k + 1);
        assert(betti_numbers@.take(k + 1).last() == b);
        assert(alternating_sum(betti_numbers@.take(k + 1)) == next);
        if next < i64::MIN as i128 || next > i64::MAX as i128 {
            return false;
        }
        acc = next as i64;
        k = k + 1;
    }
    assert(betti_numbers@.take(n as int) =~= betti_numbers@);
    true
}

/// What the Betti-number computation reads of one boundary matrix
/// `∂_k : C_{k+1} → C_k`: its numbers of rows and columns and its numerical
/// rank. An empty matrix (no rows, or an empty first row) has no columns and
/// rank 0.
#[derive(Clone, Copy, Debug, PartialEq, Eq)]
pub struct BoundaryMap {
    pub rows: usize,
    pub cols: usize,
    pub rank: usize,
}

/// Number of rows of a boundary matrix.
pub open spec fn map_rows(m: BoundaryMap) -> int {
    m.rows as int
}

/// Number of columns of a boundary matrix.
pub open spec fn map_cols(m: BoundaryMap) -> int {
    m.cols as int
}

/// Rank of a boundary matrix.
pub open spec fn map_rank(m: BoundaryMap) -> int {
    m.rank as int
}

/// The dimension of the cycles `Z_k` in degree `k`: all 0-chains (the rows of
/// the first map) in degree 0, afterwards the columns minus the rank of the
/// previous map.
pub open spec fn dim_before(ms: Seq<BoundaryMap>, k: int) -> int {
    if k <= 0 {
        if ms.len() > 0 {
            map_rows(ms[0])
        } else {
            0
        }
    } else {
        map_cols(ms[k - 1]) - map_rank(ms[k - 1])
    }
}

/// The boundary data is realisable: each rank is at most the number of rows
/// and of columns, and at most the dimension of the cycles it is subtracted
/// from (`rank ∂_{k+1} ≤ cols ∂_k - rank ∂_k`).
pub open spec fn boundaries_valid(ms: Seq<BoundaryMap>) -> bool {
    forall|k: int|
        0 <= k < ms.len() ==> {
            &&& map_rank(#[trigger] ms[k]) <= map_rows(ms[k])
            &&& map_rank(ms[k]) <= map_cols(ms[k])
            &&& map_rank(ms[k]) <= dim_before(ms, k)
        }
}

/// Whether `betti_from_boundaries` can run on this boundary data without a
/// rank exceeding the dimension it is subtracted from.
pub fn boundaries_are_valid(boundary_maps: &[BoundaryMap]) -> (ok: bool)
    ensures
        ok == boundaries_valid(boundary_maps@),
        ok == (forall|k: int|
            0 <= k < boundary_maps@.len() ==> {
                &&& (#[trigger] boundary_maps@[k]).rank <= boundary_maps@[k].rows
                &&& boundary_maps@[k].rank <= boundary_maps@[k].cols
                &&& k > 0 ==> boundary_maps@[k].rank + boundary_maps@[k - 1].rank
                    <= boundary_maps@[k - 1].cols
            }),
{
    let n = boundary_maps.len();
    let mut prev_dim: usize = if n > 0 {
        boundary_maps[0].rows
    } else {
        0
    };
    let mut k: usize = 0;
    while k < n
        invariant
            n == boundary_maps@.len(),
            k <= n,
            prev_dim == dim_before(boundary_maps@, k as int),
            forall|j: int|
                0 <= j < k ==> {
                    &&& map_rank(#[trigger] boundary_maps@[j]) <= map_rows(boundary_maps@[j])
                    &&& map_rank(boundary_maps@[j]) <= map_cols(boundary_maps@[j])
                    &&& map_rank(boundary_maps@[j]) <= dim_before(boundary_maps@, j)
                },
        decreases n - k,
    {
        let m = boundary_maps[k];
        if m.rank > m.rows || m.rank > m.cols || m.rank > prev_dim {
            assert(!boundaries_valid(boundary_maps@)) by {
                assert(boundary_maps@[k as int] == m);
            }
            assert(boundary_maps@[k as int] == m);
            return false;
        }
        prev_dim = m.cols - m.rank;
        k = k + 1;
    }
    true
}

/// The `k`-th Betti number computed from the boundary data.
pub open spec fn betti_at(ms: Seq<BoundaryMap>, k: int) -> int {
    if k < ms.len() {
        dim_before(ms, k) - map_rank(ms[k])
    } else {
        dim_before(ms, ms.len() as int)
    }
}

/// All Betti numbers computed from the boundary data: one per map and one
/// more for the top degree, none at all when there is no map.
pub open spec fn betti_numbers_spec(ms: Seq<BoundaryMap>) -> Seq<usize> {
    if ms.len() == 0 {
        Seq::empty()
    } else {
        Seq::new((ms.len() + 1) as nat, |k: int| betti_at(ms, k) as usize)
    }
}

/// Betti numbers of a chain complex from the ranks of its boundary maps:
/// `b_0 = rows ∂_0 - rank ∂_0`, `b_k = cols ∂_{k-1} - rank ∂_{k-1} - rank ∂_k`,
/// and for the top degree `b_n = cols ∂_{n-1} - rank ∂_{n-1}`.
pub fn betti_from_boundaries(boundary_maps: &[BoundaryMap]) -> (betti: Vec<usize>)
    requires
        boundaries_valid(boundary_maps@),
    ensures
        betti@ == betti_numbers_spec(boundary_maps@),
        boundary_maps@.len() == 0 ==> betti@.len() == 0,
        boundary_maps@.len() > 0 ==> {
            let ms = boundary_maps@;
            let n = ms.len() as int;
            &&& betti@.len() == n + 1
            &&& betti@[0] + ms[0].rank == ms[0].rows
            &&& forall|k: int|
                0 < k < n ==> #[trigger] betti@[k] + ms[k - 1].rank + ms[k].rank == ms[k - 1].cols
            &&& betti@[n] + ms[n - 1].rank == ms[n - 1].cols
        },
{
    let n = boundary_maps.len();
    let mut betti: Vec<usize> = Vec::new();
    let mut prev_dim: usize = if n > 0 {
        boundary_maps[0].rows
    } else {
        0
    };
    let mut k: usize = 0;
    while k < n
        invariant
            n == boundary_maps@.len(),
            k <= n,
            boundaries_valid(boundary_maps@),
            prev_dim == dim_before(boundary_maps@, k as int),
            betti@.len() == k,
            forall|j: int| 0 <= j < k ==> #[trigger] betti@[j] == betti_at(boundary_maps@, j),
        decreases n - k,
    {
        let m = boundary_maps[k];
        assert(boundary_maps@[k as int] == m);
        assert(map_rank(m) <= dim_before(boundary_maps@, k as int) && map_rank(m) <= map_cols(m));
        betti.push(prev_dim - m.rank);
        prev_dim = m.cols - m.rank;
        k = k + 1;
    }
    if n > 0 {
        betti.push(prev_dim);
    }
    assert(betti@ =~= betti_numbers_spec(boundary_maps@));
    proof {
        if n > 0 {
            let ms = boundary_maps@;
            lemma_betti_value(ms, 0);
            lemma_betti_value(ms, n as int);
            assert forall|k: int| 0 < k < n implies #[trigger] betti@[k] + ms[k - 1].rank
                + ms[k].rank == ms[k - 1].cols by {
                lemma_betti_value(ms, k);
            }
        }
    }
    betti
}

/// `c_0 - c_1 + c_2 - ... ± c_j` for the cell counts `c_0 = rows ∂_0` and
/// `c_{k+1} = cols ∂_k`: the alternating count of chain dimensions that the
/// Euler–Poincaré formula predicts.
pub open spec fn chain_euler(ms: Seq<BoundaryMap>, j: int) -> int
    decreases j,
{
    if j <= 0 {
        map_rows(ms[0])
    } else {
        chain_euler(ms, j - 1) + signed(j, map_cols(ms[j - 1]))
    }
}

proof fn lemma_betti_value(ms: Seq<BoundaryMap>, k: int)
    requires
        boundaries_valid(ms),
        0 <= k <= ms.len(),
        ms.len() > 0,
    ensures
        betti_numbers_spec(ms).len() == ms.len() + 1,
        betti_numbers_spec(ms)[k] as int == betti_at(ms, k),
{
    if k > 0 {
        let m = ms[k - 1];
        assert(map_rank(m) <= map_cols(m));
        assert(map_cols(m) <= usize::MAX);
        assert(0 <= map_rank(m));
    }
    if k < ms.len() {
        assert(map_rank(ms[k]) <= dim_before(ms, k));
        assert(0 <= map_rank(ms[k]));
    }
    assert(0 <= betti_at(ms, k) <= usize::MAX);
}

proof fn lemma_betti_prefix(ms: Seq<BoundaryMap>, j: int)
    requires
        boundaries_valid(ms),
        1 <= j <= ms.len(),
    ensures
        alternating_sum(betti_numbers_spec(ms).take(j)) == chain_euler(ms, j - 1) + signed(
            j,
            map_rank(ms[j - 1]),
        ),
    decreases j,
{
    let b = betti_numbers_spec(ms);
    lemma_betti_value(ms, j - 1);
    let t = b.take(j);
    assert(t.drop_last() =~= b.take(j - 1));
    assert(t.len() == j);
    assert(t.last() == b[j - 1]);
    assert(alternating_sum(t) == alternating_sum(b.take(j - 1)) + signed(j - 1, b[j - 1] as int));
    let r = map_rank(ms[j - 1]);
    if j == 1 {
        assert(b.take(0) =~= Seq::<usize>::empty());
        assert(b[0] as int == map_rows(ms[0]) - r);
        assert(chain_euler(ms, 0) == map_rows(ms[0]));
    } else {
        lemma_betti_prefix(ms, j - 1);
        let r0 = map_rank(ms[j - 2]);
        let n0 = map_cols(ms[j - 2]);
        assert(b[j - 1] as int == n0 - r0 - r);
        assert(chain_euler(ms, j - 1) == chain_euler(ms, j - 2) + signed(j - 1, n0));
    }
}

/// Euler–Poincaré: the Euler characteristic of the computed Betti numbers
/// does not depend on the ranks of the boundary maps; it is the alternating
/// sum `c_0 - c_1 + c_2 - ...` of the cell counts, with `c_0 = rows ∂_0` and
/// `c_{k+1} = cols ∂_k`.
pub proof fn lemma_euler_poincare(ms: Seq<BoundaryMap>)
    requires
        boundaries_valid(ms),
        ms.len() > 0,
    ensures
        alternating_sum(betti_numbers_spec(ms)) == chain_euler(ms, ms.len() as int),
{
    let n = ms.len() as int;
    let b = betti_numbers_spec(ms);
    lemma_betti_prefix(ms, n);
    lemma_betti_value(ms, n);
    assert(b.drop_last() =~= b.take(n));
    assert(b.len() == n + 1);
    assert(alternating_sum(b) == alternating_sum(b.take(n)) + signed(n, b[n] as int));
    assert(b[n] as int == map_cols(ms[n - 1]) - map_rank(ms[n - 1]));
    assert(chain_euler(ms, n) == chain_euler(ms, n - 1) + signed(n, map_cols(ms[n - 1])));
}

/// The alternating sum is determined by peeling off the first entry: it is
/// 0 for no entries, and `b_0 - χ(b_1, b_2, ...)` otherwise.
pub proof fn lemma_alternating_sum_first(b: Seq<usize>)
    requires
        b.len() > 0,
    ensures
        alternating_sum(Seq::<usize>::empty()) == 0,
        alternating_sum(b) == b[0] - alternating_sum(b.drop_first()),
    decreases b.len(),
{
    let n = b.len() as int;
    let d = b.drop_first();
    assert(alternating_sum(b) == alternating_sum(b.drop_last()) + signed(n - 1, b.last() as int));
    if n == 1 {
        assert(b.drop_last() =~= Seq::<usize>::empty());
        assert(d =~= Seq::<usize>::empty());
        assert(alternating_sum(Seq::<usize>::empty()) == 0);
        assert(b.last() == b[0]);
    } else {
        let l = b.drop_last();
        lemma_alternating_sum_first(l);
        assert(l[0] == b[0]);
        assert(l.drop_first() =~= d.drop_last());
        assert(d.len() == n - 1);
        assert(d.last() == b.last());
        assert(alternating_sum(d) == alternating_sum(d.drop_last()) + signed(n - 2, d.last() as int));
        let x = b.last() as int;
        if (n - 1) % 2 == 0 {
            assert(alternating_sum(b) == alternating_sum(l) + x);
            assert(alternating_sum(d) == alternating_sum(d.drop_last()) - x);
        } else {
            assert(alternating_sum(b) == alternating_sum(l) - x);
            assert(alternating_sum(d) == alternating_sum(d.drop_last()) + x);
        }
    }
}

/// Poincaré duality for odd dimension: Betti numbers of even length that
/// read the same backwards (`b_k = b_{n-k}`) have Euler characteristic 0.
pub proof fn lemma_palindromic_euler_vanishes(b: Seq<usize>)
    requires
        b.len() % 2 == 0,
        forall|k: int| 0 <= k < b.len() ==> #[trigger] b[k] == b[b.len() - 1 - k],
    ensures
        alternating_sum(b) == 0,
    decreases b.len(),
{
    if b.len() > 0 {
        let n = b.len() as int;
        let inner = b.subrange(1, n - 1);
        assert forall|k: int| 0 <= k < inner.len() implies #[trigger] inner[k] == inner[inner.len()
            - 1 - k] by {
            assert(inner[k] == b[k + 1]);
            assert(b[k + 1] == b[n - 1 - (k + 1)]);
        }
        lemma_palindromic_euler_vanishes(inner);
        lemma_alternating_sum_first(b.drop_last());
        assert(b.drop_last().drop_first() =~= inner);
        assert(b[0] == b[n - 1]);
        assert((n - 1) % 2 == 1);
    }
}


/// With every rank 0 (zero boundary maps) the data is always valid, and the
/// Betti numbers are the cell counts `rows ∂_0, cols ∂_0, cols ∂_1, ...`.
pub proof fn lemma_zero_boundaries(ms: Seq<BoundaryMap>)
    requires
        forall|k: int| 0 <= k < ms.len() ==> (#[trigger] ms[k]).rank == 0,
    ensures
        boundaries_valid(ms),
        ms.len() > 0 ==> betti_numbers_spec(ms)[0] == ms[0].rows,
        forall|k: int|
            0 < k <= ms.len() ==> #[trigger] betti_numbers_spec(ms)[k] == ms[k - 1].cols,
{
    assert forall|k: int| 0 <= k < ms.len() implies {
        &&& map_rank(#[trigger] ms[k]) <= map_rows(ms[k])
        &&& map_rank(ms[k]) <= map_cols(ms[k])
        &&& map_rank(ms[k]) <= dim_before(ms, k)
    } by {
        if k > 0 {
            assert(ms[k - 1].rank == 0);
        }
    }
    if ms.len() > 0 {
        lemma_betti_value(ms, 0);
        assert forall|k: int| 0 < k <= ms.len() implies #[trigger] betti_numbers_spec(ms)[k]
            == ms[k - 1].cols by {
            lemma_betti_value(ms, k);
            assert(ms[k - 1].rank == 0);
            if k < ms.len() {
                assert(ms[k].rank == 0);
            }
        }
    }
}

proof fn lemma_alternating_sum_bound(b: Seq<usize>, bound: int)
    requires
        bound >= 0,
        forall|k: int| 0 <= k < b.len() ==> #[trigger] b[k] <= bound,
    ensures
        -(b.len() * bound) <= alternating_sum(b) <= b.len() * bound,
    decreases b.len(),
{
    if b.len() > 0 {
        let n = b.len() as int;
        let d = b.drop_last();
        assert forall|k: int| 0 <= k < d.len() implies #[trigger] d[k] <= bound by {
            assert(d[k] == b[k]);
        }
        lemma_alternating_sum_bound(d, bound);
        assert(b.last() <= bound);
        assert((n - 1) * bound + bound == n * bound) by (nonlinear_arith);
    }
}

/// Betti numbers that are each at most `bound`, with `len · bound ≤ i64::MAX`,
/// always have an Euler characteristic computable in an `i64`.
pub proof fn lemma_small_betti_fit(b: Seq<usize>, bound: int)
    requires
        bound >= 0,
        forall|k: int| 0 <= k < b.len() ==> #[trigger] b[k] <= bound,
        b.len() * bound <= i64::MAX,
    ensures
        fits_i64(b),
{
    assert forall|k: int| 0 <= k < b.len() implies #[trigger] b[k] <= i64::MAX by {
        assert(1 * bound <= b.len() * bound) by (nonlinear_arith)
            requires
                1 <= b.len(),
                bound >= 0,
        ;
    }
    assert forall|k: int| 0 <= k <= b.len() implies i64::MIN <= #[trigger] alternating_sum(
        b.take(k),
    ) <= i64::MAX by {
        let t = b.take(k);
        assert forall|j: int| 0 <= j < t.len() implies #[trigger] t[j] <= bound by {
            assert(t[j] == b[j]);
        }
        lemma_alternating_sum_bound(t, bound);
        assert(k * bound <= b.len() * bound) by (nonlinear_arith)
            requires
                k <= b.len(),
                bound >= 0,
        ;
    }
}

} // verus!
