//! The counts of a histogram add up to the number of samples.
//!
//! The proofs count the positions that satisfy a predicate, split by the value
//! of a key, and add the parts back up axis by axis.
use crate::hist::{all_below, count1, count2, count3, is_hist1, is_hist2, is_hist3};
use vstd::prelude::*;

verus! {

/// The sum of the entries of a rank-1 table.
pub open spec fn total1(h: Seq<usize>) -> int
    decreases h.len(),
{
    if h.len() == 0 {
        0
    } else {
        total1(h.drop_last()) + h.last()
    }
}

/// The sum of the entries of a rank-2 table.
pub open spec fn total2(h: Seq<Seq<usize>>) -> int
    decreases h.len(),
{
    if h.len() == 0 {
        0
    } else {
        total2(h.drop_last()) + total1(h.last())
    }
}

/// The sum of the entries of a rank-3 table.
pub open spec fn total3(h: Seq<Seq<Seq<usize>>>) -> int
    decreases h.len(),
{
    if h.len() == 0 {
        0
    } else {
        total3(h.drop_last()) + total2(h.last())
    }
}

/// Number of positions `i` below `n` with `q(i)` and `key(i) == v`.
pub open spec fn count_key(q: spec_fn(int) -> bool, key: spec_fn(int) -> int, v: int, n: nat) -> nat
    decreases n,
{
    if n == 0 {
        0
    } else {
        count_key(q, key, v, (n - 1) as nat) + if q(n - 1) && key(n - 1) == v {
            1nat
        } else {
            0nat
        }
    }
}

/// Number of positions `i` below `n` with `q(i)` and `0 <= key(i) < k`.
pub open spec fn count_key_below(
    q: spec_fn(int) -> bool,
    key: spec_fn(int) -> int,
    k: int,
    n: nat,
) -> nat
    decreases n,
{
    if n == 0 {
        0
    } else {
        count_key_below(q, key, k, (n - 1) as nat) + if q(n - 1) && 0 <= key(n - 1) < k {
            1nat
        } else {
            0nat
        }
    }
}

/// `count_key(q, key, v, n)` summed over the keys `v` below `k`.
pub open spec fn sum_keys(q: spec_fn(int) -> bool, key: spec_fn(int) -> int, k: nat, n: nat) -> int
    decreases k,
{
    if k == 0 {
        0
    } else {
        sum_keys(q, key, (k - 1) as nat, n) + count_key(q, key, k - 1, n)
    }
}

proof fn lemma_sum_keys_none(q: spec_fn(int) -> bool, key: spec_fn(int) -> int, k: nat)
    ensures
        sum_keys(q, key, k, 0) == 0,
    decreases k,
{
    if k > 0 {
        lemma_sum_keys_none(q, key, (k - 1) as nat);
    }
}

proof fn lemma_sum_keys_step(q: spec_fn(int) -> bool, key: spec_fn(int) -> int, k: nat, n: nat)
    requires
        n > 0,
    ensures
        sum_keys(q, key, k, n) == sum_keys(q, key, k, (n - 1) as nat) + if q(n - 1) && 0 <= key(
            n - 1,
        ) < k {
            1int
        } else {
            0int
        },
    decreases k,
{
    if k > 0 {
        lemma_sum_keys_step(q, key, (k - 1) as nat, n);
    }
}

/// Splitting the positions by key and adding the parts up counts each
/// position whose key is below `k` once.
proof fn lemma_split_by_key(q: spec_fn(int) -> bool, key: spec_fn(int) -> int, k: nat, n: nat)
    ensures
        sum_keys(q, key, k, n) == count_key_below(q, key, k as int, n),
    decreases n,
{
    if n == 0 {
        lemma_sum_keys_none(q, key, k);
    } else {
        lemma_split_by_key(q, key, k, (n - 1) as nat);
        lemma_sum_keys_step(q, key, k, n);
    }
}

proof fn lemma_below_all(q: spec_fn(int) -> bool, key: spec_fn(int) -> int, k: int, n: nat)
    requires
        forall|i: int| 0 <= i < n ==> #[trigger] q(i) && 0 <= key(i) < k,
    ensures
        count_key_below(q, key, k, n) == n,
    decreases n,
{
    if n > 0 {
        lemma_below_all(q, key, k, (n - 1) as nat);
    }
}

proof fn lemma_below_is_key(
    q1: spec_fn(int) -> bool,
    key1: spec_fn(int) -> int,
    k: int,
    q2: spec_fn(int) -> bool,
    key2: spec_fn(int) -> int,
    v: int,
    n: nat,
)
    requires
        forall|i: int|
            #![trigger q1(i)]
            #![trigger key1(i)]
            0 <= i < n ==> (q1(i) && 0 <= key1(i) < k) == (q2(i) && key2(i) == v),
    ensures
        count_key_below(q1, key1, k, n) == count_key(q2, key2, v, n),
    decreases n,
{
    if n > 0 {
        lemma_below_is_key(q1, key1, k, q2, key2, v, (n - 1) as nat);
    }
}

proof fn lemma_count1_is_key(
    s: Seq<usize>,
    q: spec_fn(int) -> bool,
    key: spec_fn(int) -> int,
    v: int,
    n: nat,
)
    requires
        forall|i: int| 0 <= i < n ==> #[trigger] q(i) && key(i) == s[i] as int,
    ensures
        count1(s, v, n) == count_key(q, key, v, n),
    decreases n,
{
    if n > 0 {
        lemma_count1_is_key(s, q, key, v, (n - 1) as nat);
    }
}

proof fn lemma_count2_is_key(
    a: Seq<usize>,
    b: Seq<usize>,
    x: int,
    q: spec_fn(int) -> bool,
    key: spec_fn(int) -> int,
    y: int,
    n: nat,
)
    requires
        forall|i: int| 0 <= i < n ==> #[trigger] q(i) == (a[i] == x) && key(i) == b[i] as int,
    ensures
        count2(a, b, x, y, n) == count_key(q, key, y, n),
    decreases n,
{
    if n > 0 {
        lemma_count2_is_key(a, b, x, q, key, y, (n - 1) as nat);
    }
}

proof fn lemma_count3_is_key(
    a: Seq<usize>,
    b: Seq<usize>,
    c: Seq<usize>,
    x: int,
    y: int,
    q: spec_fn(int) -> bool,
    key: spec_fn(int) -> int,
    z: int,
    n: nat,
)
    requires
        forall|i: int|
            0 <= i < n ==> #[trigger] q(i) == (a[i] == x && b[i] == y) && key(i) == c[i] as int,
    ensures
        count3(a, b, c, x, y, z, n) == count_key(q, key, z, n),
    decreases n,
{
    if n > 0 {
        lemma_count3_is_key(a, b, c, x, y, q, key, z, (n - 1) as nat);
    }
}

proof fn lemma_total1_keys(h: Seq<usize>, q: spec_fn(int) -> bool, key: spec_fn(int) -> int, k: nat, n: nat)
    requires
        k <= h.len(),
        forall|v: int| 0 <= v < k ==> #[trigger] h[v] == count_key(q, key, v, n),
    ensures
        total1(h.take(k as int)) == sum_keys(q, key, k, n),
    decreases k,
{
    if k > 0 {
        lemma_total1_keys(h, q, key, (k - 1) as nat, n);
        assert(h.take(k as int).drop_last() =~= h.take(k - 1));
    }
}

proof fn lemma_total2_keys(
    h: Seq<Seq<usize>>,
    q: spec_fn(int) -> bool,
    key: spec_fn(int) -> int,
    k: nat,
    n: nat,
)
    requires
        k <= h.len(),
        forall|v: int| 0 <= v < k ==> #[trigger] total1(h[v]) == count_key(q, key, v, n),
    ensures
        total2(h.take(k as int)) == sum_keys(q, key, k, n),
    decreases k,
{
    if k > 0 {
        lemma_total2_keys(h, q, key, (k - 1) as nat, n);
        assert(h.take(k as int).drop_last() =~= h.take(k - 1));
    }
}

proof fn lemma_total3_keys(
    h: Seq<Seq<Seq<usize>>>,
    q: spec_fn(int) -> bool,
    key: spec_fn(int) -> int,
    k: nat,
    n: nat,
)
    requires
        k <= h.len(),
        forall|v: int| 0 <= v < k ==> #[trigger] total2(h[v]) == count_key(q, key, v, n),
    ensures
        total3(h.take(k as int)) == sum_keys(q, key, k, n),
    decreases k,
{
    if k > 0 {
        lemma_total3_keys(h, q, key, (k - 1) as nat, n);
        assert(h.take(k as int).drop_last() =~= h.take(k - 1));
    }
}

/// The counts of a rank-1 histogram of `s` add up to the length of `s`.
pub proof fn lemma_hist1_total(h: Seq<usize>, s: Seq<usize>, nbins: usize)
    requires
        is_hist1(h, s, nbins),
        all_below(s, nbins),
    ensures
        total1(h) == s.len(),
{
    let n = s.len() as nat;
    let q = |i: int| true;
    let key = |i: int| s[i] as int;
    assert forall|v: int| 0 <= v < nbins implies #[trigger] h[v] == count_key(q, key, v, n) by {
        lemma_count1_is_key(s, q, key, v, n);
    }
    lemma_total1_keys(h, q, key, nbins as nat, n);
    assert(h.take(nbins as int) =~= h);
    lemma_split_by_key(q, key, nbins as nat, n);
    lemma_below_all(q, key, nbins as int, n);
}


/// The counts of a rank-2 histogram of `a` and `b` add up to their common
/// length.
pub proof fn lemma_hist2_total(
    h: Seq<Seq<usize>>,
    a: Seq<usize>,
    b: Seq<usize>,
    nbins_a: usize,
    nbins_b: usize,
)
    requires
        is_hist2(h, a, b, nbins_a, nbins_b),
        a.len() == b.len(),
        all_below(a, nbins_a),
        all_below(b, nbins_b),
    ensures
        total2(h) == a.len(),
{
    let n = a.len() as nat;
    let key_a = |i: int| a[i] as int;
    let key_b = |i: int| b[i] as int;
    let in_b = |i: int| 0 <= b[i] < nbins_b;
    assert forall|x: int| 0 <= x < nbins_a implies #[trigger] total1(h[x]) == count_key(
        in_b,
        key_a,
        x,
        n,
    ) by {
        let at_x = |i: int| a[i] == x;
        assert forall|y: int| 0 <= y < nbins_b implies #[trigger] h[x][y] == count_key(
            at_x,
            key_b,
            y,
            n,
        ) by {
            lemma_count2_is_key(a, b, x, at_x, key_b, y, n);
        }
        lemma_total1_keys(h[x], at_x, key_b, nbins_b as nat, n);
        assert(h[x].take(nbins_b as int) =~= h[x]);
        lemma_split_by_key(at_x, key_b, nbins_b as nat, n);
        lemma_below_is_key(at_x, key_b, nbins_b as int, in_b, key_a, x, n);
    }
    lemma_total2_keys(h, in_b, key_a, nbins_a as nat, n);
    assert(h.take(nbins_a as int) =~= h);
    lemma_split_by_key(in_b, key_a, nbins_a as nat, n);
    lemma_below_all(in_b, key_a, nbins_a as int, n);
}

/// The counts of a rank-3 histogram of `a`, `b` and `c` add up to their
/// common length.
pub proof fn lemma_hist3_total(
    h: Seq<Seq<Seq<usize>>>,
    a: Seq<usize>,
    b: Seq<usize>,
    c: Seq<usize>,
    nbins_a: usize,
    nbins_b: usize,
    nbins_c: usize,
)
    requires
        is_hist3(h, a, b, c, nbins_a, nbins_b, nbins_c),
        a.len() == b.len(),
        a.len() == c.len(),
        all_below(a, nbins_a),
        all_below(b, nbins_b),
        all_below(c, nbins_c),
    ensures
        total3(h) == a.len(),
{
    let n = a.len() as nat;
    let key_a = |i: int| a[i] as int;
    let key_b = |i: int| b[i] as int;
    let key_c = |i: int| c[i] as int;
    let in_bc = |i: int| 0 <= b[i] < nbins_b && 0 <= c[i] < nbins_c;
    assert forall|x: int| 0 <= x < nbins_a implies #[trigger] total2(h[x]) == count_key(
        in_bc,
        key_a,
        x,
        n,
    ) by {
        let at_x_in_c = |i: int| a[i] == x && 0 <= c[i] < nbins_c;
        assert forall|y: int| 0 <= y < nbins_b implies #[trigger] total1(h[x][y]) == count_key(
            at_x_in_c,
            key_b,
            y,
            n,
        ) by {
            let at_xy = |i: int| a[i] == x && b[i] == y;
            assert forall|z: int| 0 <= z < nbins_c implies #[trigger] h[x][y][z] == count_key(
                at_xy,
                key_c,
                z,
                n,
            ) by {
                lemma_count3_is_key(a, b, c, x, y, at_xy, key_c, z, n);
            }
            lemma_total1_keys(h[x][y], at_xy, key_c, nbins_c as nat, n);
            assert(h[x][y].take(nbins_c as int) =~= h[x][y]);
            lemma_split_by_key(at_xy, key_c, nbins_c as nat, n);
            lemma_below_is_key(at_xy, key_c, nbins_c as int, at_x_in_c, key_b, y, n);
        }
        lemma_total2_keys(h[x], at_x_in_c, key_b, nbins_b as nat, n);
        assert(h[x].take(nbins_b as int) =~= h[x]);
        lemma_split_by_key(at_x_in_c, key_b, nbins_b as nat, n);
        lemma_below_is_key(at_x_in_c, key_b, nbins_b as int, in_bc, key_a, x, n);
    }
    lemma_total3_keys(h, in_bc, key_a, nbins_a as nat, n);
    assert(h.take(nbins_a as int) =~= h);
    lemma_split_by_key(in_bc, key_a, nbins_a as nat, n);
    lemma_below_all(in_bc, key_a, nbins_a as int, n);
}

} // verus!
