//! Histograms of one, two or three aligned sequences of category codes.
use crate::arrays::{
    axis_factor, cells1, cells2, cells3, dims2, dims3, shaped2, shaped3, Histogram1, Histogram2,
    Histogram3,
};
use crate::total::{
    lemma_hist1_total, lemma_hist2_total, lemma_hist3_total, total1, total2, total3,
};
use vstd::prelude::*;
use vstd::set_lib::{lemma_int_range, lemma_len_subset, lemma_map_size, set_int_range};

verus! {

/// Why a histogram could not be built.
#[derive(Debug, Clone, Copy, PartialEq, Eq, Structural)]
pub enum HistError {
    /// The sample sequences differ in length.
    LengthMismatch,
    /// The sequence with this index (0 for the first) holds a code that is not
    /// below the bin count given for it.
    OutOfRange(usize),
}

/// Number of positions below `n` at which `s` holds `v`.
pub open spec fn count1(s: Seq<usize>, v: int, n: nat) -> nat
    decreases n,
{
    if n == 0 {
        0
    } else {
        count1(s, v, (n - 1) as nat) + if s[n - 1] == v { 1nat } else { 0nat }
    }
}

/// Every code of `s` is below `nbins`.
pub open spec fn all_below(s: Seq<usize>, nbins: usize) -> bool {
    forall|i: int| 0 <= i < s.len() ==> #[trigger] s[i] < nbins
}

/// `h` counts, for each code below `nbins`, how often `s` holds it.
pub open spec fn is_hist1(h: Seq<usize>, s: Seq<usize>, nbins: usize) -> bool {
    &&& h.len() == nbins
    &&& forall|v: int| 0 <= v < nbins ==> #[trigger] h[v] == count1(s, v, s.len())
}

/// A sequence that holds more distinct codes than `nbins` holds a code that
/// is not below `nbins`: `hist1d` fails on it with `OutOfRange`.
pub proof fn lemma_more_codes_than_bins(s: Seq<usize>, nbins: usize)
    requires
        s.to_set().len() > nbins,
    ensures
        !all_below(s, nbins),
{
    if all_below(s, nbins) {
        let codes = s.to_set();
        let as_int = |v: usize| v as int;
        let ints = codes.map(as_int);
        let range = set_int_range(0, nbins as int);
        assert(codes.finite()) by {
            broadcast use vstd::seq_lib::seq_to_set_is_finite;
        }
        lemma_map_size(codes, ints, as_int);
        lemma_int_range(0, nbins as int);
        assert(ints.subset_of(range)) by {
            assert forall|x: int| ints.contains(x) implies range.contains(x) by {
                let v = choose|v: usize| codes.contains(v) && as_int(v) == x;
                let i = choose|i: int| 0 <= i < s.len() && s[i] == v;
                assert(s[i] < nbins);
            }
        }
        lemma_len_subset(ints, range);
    }
}

proof fn lemma_count1_bound(s: Seq<usize>, v: int, n: nat)
    ensures
        count1(s, v, n) <= n,
    decreases n,
{
    if n > 0 {
        lemma_count1_bound(s, v, (n - 1) as nat);
    }
}

/// Counts how often each code below `nbins` occurs in `arr`.
///
/// Fails with `OutOfRange(0)` when some code is not below `nbins`.
pub fn hist1d(arr: &[usize], nbins: usize) -> (r: Result<Histogram1, HistError>)
    requires
        nbins <= isize::MAX,
    ensures
        all_below(arr@, nbins) <==> r is Ok,
        r is Ok ==> is_hist1(cells1(r->Ok_0), arr@, nbins),
        r is Ok ==> total1(cells1(r->Ok_0)) == arr@.len(),
        r is Err ==> r == Err::<Histogram1, HistError>(HistError::OutOfRange(0)),
        arr@.to_set().len() > nbins ==> r == Err::<Histogram1, HistError>(
            HistError::OutOfRange(0),
        ),
{
    proof {
        if arr@.to_set().len() > nbins {
            lemma_more_codes_than_bins(arr@, nbins);
        }
    }
    let mut events = Histogram1::zeros(nbins);
    let n = arr.len();
    let mut idx: usize = 0;
    while idx < n
        invariant
            n == arr@.len(),
            idx <= n,
            forall|i: int| 0 <= i < idx ==> #[trigger] arr@[i] < nbins,
            cells1(events).len() == nbins,
            forall|v: int|
                0 <= v < nbins ==> #[trigger] cells1(events)[v] == count1(arr@, v, idx as nat),
        decreases n - idx,
    {
        let code = arr[idx];
        if code >= nbins {
            return Err(HistError::OutOfRange(0));
        }
        proof {
            lemma_count1_bound(arr@, code as int, idx as nat);
        }
        let c = events.get(code);
        events.set(code, c + 1);
        proof {
            assert forall|v: int| 0 <= v < nbins implies #[trigger] cells1(events)[v] == count1(
                arr@,
                v,
                (idx + 1) as nat,
            ) by {
                assert(count1(arr@, v, (idx + 1) as nat) == count1(arr@, v, idx as nat) + if arr@[idx
                    as int] == v {
                    1nat
                } else {
                    0nat
                });
            }
        }
        idx = idx + 1;
    }
    proof {
        lemma_hist1_total(cells1(events), arr@, nbins);
    }
    Ok(events)
}

/// Number of positions below `n` at which `a` holds `x` and `b` holds `y`.
pub open spec fn count2(a: Seq<usize>, b: Seq<usize>, x: int, y: int, n: nat) -> nat
    decreases n,
{
    if n == 0 {
        0
    } else {
        count2(a, b, x, y, (n - 1) as nat) + if a[n - 1] == x && b[n - 1] == y {
            1nat
        } else {
            0nat
        }
    }
}

/// The sequence (0 for `a`, 1 for `b`) whose code is out of range at the first
/// of the positions below `n` where one is, if any.
pub open spec fn first_out2(
    a: Seq<usize>,
    b: Seq<usize>,
    nbins_a: usize,
    nbins_b: usize,
    n: nat,
) -> Option<usize>
    decreases n,
{
    if n == 0 {
        None
    } else {
        let earlier = first_out2(a, b, nbins_a, nbins_b, (n - 1) as nat);
        if earlier is Some {
            earlier
        } else if a[n - 1] >= nbins_a {
            Some(0usize)
        } else if b[n - 1] >= nbins_b {
            Some(1usize)
        } else {
            None
        }
    }
}

/// `h` is a `nbins_a` by `nbins_b` table that counts, for each pair of codes,
/// at how many positions `a` and `b` hold that pair.
pub open spec fn is_hist2(
    h: Seq<Seq<usize>>,
    a: Seq<usize>,
    b: Seq<usize>,
    nbins_a: usize,
    nbins_b: usize,
) -> bool {
    &&& shaped2(h, nbins_a as nat, nbins_b as nat)
    &&& forall|x: int, y: int|
        0 <= x < nbins_a && 0 <= y < nbins_b ==> #[trigger] h[x][y] == count2(a, b, x, y, a.len())
}

proof fn lemma_count2_bound(a: Seq<usize>, b: Seq<usize>, x: int, y: int, n: nat)
    ensures
        count2(a, b, x, y, n) <= n,
    decreases n,
{
    if n > 0 {
        lemma_count2_bound(a, b, x, y, (n - 1) as nat);
    }
}

/// Counts, for each pair of codes below `(nbins_a, nbins_b)`, at how many
/// positions `arr_a` and `arr_b` hold that pair.
///
/// Fails with `LengthMismatch` when the sequences differ in length, and else
/// with `OutOfRange(d)` when a code is out of range: `d` names the sequence
/// (0 or 1) at fault at the first position where one is.
pub fn hist2d(arr_a: &[usize], arr_b: &[usize], nbins_a: usize, nbins_b: usize) -> (r: Result<
    Histogram2,
    HistError,
>)
    requires
        arr_a@.len() == arr_b@.len() ==> axis_factor(nbins_a) * axis_factor(nbins_b)
            <= isize::MAX,
    ensures
        arr_a@.len() != arr_b@.len() ==> r == Err::<Histogram2, HistError>(
            HistError::LengthMismatch,
        ),
        arr_a@.len() == arr_b@.len() ==> match first_out2(
            arr_a@,
            arr_b@,
            nbins_a,
            nbins_b,
            arr_a@.len(),
        ) {
            Some(d) => r == Err::<Histogram2, HistError>(HistError::OutOfRange(d)),
            None => r is Ok && dims2(r->Ok_0) == (nbins_a as nat, nbins_b as nat) && is_hist2(
                cells2(r->Ok_0),
                arr_a@,
                arr_b@,
                nbins_a,
                nbins_b,
            ) && total2(cells2(r->Ok_0)) == arr_a@.len(),
        },
{
    if arr_a.len() != arr_b.len() {
        return Err(HistError::LengthMismatch);
    }
    let mut events = Histogram2::zeros(nbins_a, nbins_b);
    let n = arr_a.len();
    let mut idx: usize = 0;
    while idx < n
        invariant
            n == arr_a@.len(),
            n == arr_b@.len(),
            idx <= n,
            first_out2(arr_a@, arr_b@, nbins_a, nbins_b, idx as nat) is None,
            dims2(events) == (nbins_a as nat, nbins_b as nat),
            shaped2(cells2(events), nbins_a as nat, nbins_b as nat),
            forall|x: int, y: int|
                0 <= x < nbins_a && 0 <= y < nbins_b ==> #[trigger] cells2(events)[x][y]
                    == count2(arr_a@, arr_b@, x, y, idx as nat),
        decreases n - idx,
    {
        let ix = arr_a[idx];
        let jx = arr_b[idx];
        if ix >= nbins_a || jx >= nbins_b {
            proof {
                lemma_first_out2_stays(
                    arr_a@,
                    arr_b@,
                    nbins_a,
                    nbins_b,
                    (idx + 1) as nat,
                    n as nat,
                );
            }
            if ix >= nbins_a {
                return Err(HistError::OutOfRange(0));
            } else {
                return Err(HistError::OutOfRange(1));
            }
        }
        proof {
            lemma_count2_bound(arr_a@, arr_b@, ix as int, jx as int, idx as nat);
        }
        let c = events.get(ix, jx);
        events.set(ix, jx, c + 1);
        proof {
            assert forall|x: int, y: int|
                0 <= x < nbins_a && 0 <= y < nbins_b implies #[trigger] cells2(events)[x][y]
                == count2(arr_a@, arr_b@, x, y, (idx + 1) as nat) by {
                assert(count2(arr_a@, arr_b@, x, y, (idx + 1) as nat) == count2(
                    arr_a@,
                    arr_b@,
                    x,
                    y,
                    idx as nat,
                ) + if arr_a@[idx as int] == x && arr_b@[idx as int] == y {
                    1nat
                } else {
                    0nat
                });
            }
        }
        idx = idx + 1;
    }
    proof {
        lemma_first_out2_none(arr_a@, arr_b@, nbins_a, nbins_b, n as nat);
        lemma_hist2_total(cells2(events), arr_a@, arr_b@, nbins_a, nbins_b);
    }
    Ok(events)
}

proof fn lemma_first_out2_none(a: Seq<usize>, b: Seq<usize>, nbins_a: usize, nbins_b: usize, n: nat)
    requires
        n <= a.len(),
        n <= b.len(),
        first_out2(a, b, nbins_a, nbins_b, n) is None,
    ensures
        forall|i: int| 0 <= i < n ==> #[trigger] a[i] < nbins_a,
        forall|i: int| 0 <= i < n ==> #[trigger] b[i] < nbins_b,
    decreases n,
{
    if n > 0 {
        lemma_first_out2_none(a, b, nbins_a, nbins_b, (n - 1) as nat);
    }
}

proof fn lemma_first_out2_stays(
    a: Seq<usize>,
    b: Seq<usize>,
    nbins_a: usize,
    nbins_b: usize,
    m: nat,
    n: nat,
)
    requires
        m <= n,
        first_out2(a, b, nbins_a, nbins_b, m) is Some,
    ensures
        first_out2(a, b, nbins_a, nbins_b, n) == first_out2(a, b, nbins_a, nbins_b, m),
    decreases n - m,
{
    if m < n {
        lemma_first_out2_stays(a, b, nbins_a, nbins_b, m, (n - 1) as nat);
    }
}


/// Number of positions below `n` at which `a`, `b` and `c` hold `x`, `y` and
/// `z`.
pub open spec fn count3(
    a: Seq<usize>,
    b: Seq<usize>,
    c: Seq<usize>,
    x: int,
    y: int,
    z: int,
    n: nat,
) -> nat
    decreases n,
{
    if n == 0 {
        0
    } else {
        count3(a, b, c, x, y, z, (n - 1) as nat) + if a[n - 1] == x && b[n - 1] == y && c[n - 1]
            == z {
            1nat
        } else {
            0nat
        }
    }
}

/// The sequence (0 for `a`, 1 for `b`, 2 for `c`) whose code is out of range
/// at the first of the positions below `n` where one is, if any.
pub open spec fn first_out3(
    a: Seq<usize>,
    b: Seq<usize>,
    c: Seq<usize>,
    nbins_a: usize,
    nbins_b: usize,
    nbins_c: usize,
    n: nat,
) -> Option<usize>
    decreases n,
{
    if n == 0 {
        None
    } else {
        let earlier = first_out3(a, b, c, nbins_a, nbins_b, nbins_c, (n - 1) as nat);
        if earlier is Some {
            earlier
        } else if a[n - 1] >= nbins_a {
            Some(0usize)
        } else if b[n - 1] >= nbins_b {
            Some(1usize)
        } else if c[n - 1] >= nbins_c {
            Some(2usize)
        } else {
            None
        }
    }
}

/// `h` is a `nbins_a` by `nbins_b` by `nbins_c` table that counts, for each
/// triple of codes, at how many positions `a`, `b` and `c` hold that triple.
pub open spec fn is_hist3(
    h: Seq<Seq<Seq<usize>>>,
    a: Seq<usize>,
    b: Seq<usize>,
    c: Seq<usize>,
    nbins_a: usize,
    nbins_b: usize,
    nbins_c: usize,
) -> bool {
    &&& shaped3(h, nbins_a as nat, nbins_b as nat, nbins_c as nat)
    &&& forall|x: int, y: int, z: int|
        0 <= x < nbins_a && 0 <= y < nbins_b && 0 <= z < nbins_c ==> #[trigger] h[x][y][z]
            == count3(a, b, c, x, y, z, a.len())
}

proof fn lemma_count3_bound(
    a: Seq<usize>,
    b: Seq<usize>,
    c: Seq<usize>,
    x: int,
    y: int,
    z: int,
    n: nat,
)
    ensures
        count3(a, b, c, x, y, z, n) <= n,
    decreases n,
{
    if n > 0 {
        lemma_count3_bound(a, b, c, x, y, z, (n - 1) as nat);
    }
}

proof fn lemma_first_out3_stays(
    a: Seq<usize>,
    b: Seq<usize>,
    c: Seq<usize>,
    nbins_a: usize,
    nbins_b: usize,
    nbins_c: usize,
    m: nat,
    n: nat,
)
    requires
        m <= n,
        first_out3(a, b, c, nbins_a, nbins_b, nbins_c, m) is Some,
    ensures
        first_out3(a, b, c, nbins_a, nbins_b, nbins_c, n) == first_out3(
            a,
            b,
            c,
            nbins_a,
            nbins_b,
            nbins_c,
            m,
        ),
    decreases n - m,
{
    if m < n {
        lemma_first_out3_stays(a, b, c, nbins_a, nbins_b, nbins_c, m, (n - 1) as nat);
    }
}

/// Counts, for each triple of codes below `(nbins_a, nbins_b, nbins_c)`, at
/// how many positions `arr_a`, `arr_b` and `arr_c` hold that triple.
///
/// Fails with `LengthMismatch` when the sequences differ in length, and else
/// with `OutOfRange(d)` when a code is out of range: `d` names the sequence
/// (0, 1 or 2) at fault at the first position where one is.
pub fn hist3d(
    arr_a: &[usize],
    arr_b: &[usize],
    arr_c: &[usize],
    nbins_a: usize,
    nbins_b: usize,
    nbins_c: usize,
) -> (r: Result<Histogram3, HistError>)
    requires
        arr_a@.len() == arr_b@.len() && arr_a@.len() == arr_c@.len() ==> axis_factor(nbins_a)
            * axis_factor(nbins_b) * axis_factor(nbins_c) <= isize::MAX,
    ensures
        arr_a@.len() != arr_b@.len() || arr_a@.len() != arr_c@.len() ==> r == Err::<
            Histogram3,
            HistError,
        >(HistError::LengthMismatch),
        arr_a@.len() == arr_b@.len() && arr_a@.len() == arr_c@.len() ==> match first_out3(
            arr_a@,
            arr_b@,
            arr_c@,
            nbins_a,
            nbins_b,
            nbins_c,
            arr_a@.len(),
        ) {
            Some(d) => r == Err::<Histogram3, HistError>(HistError::OutOfRange(d)),
            None => r is Ok && dims3(r->Ok_0) == (nbins_a as nat, nbins_b as nat, nbins_c as nat)
                && is_hist3(cells3(r->Ok_0), arr_a@, arr_b@, arr_c@, nbins_a, nbins_b, nbins_c)
                && total3(cells3(r->Ok_0)) == arr_a@.len(),
        },
{
    if arr_a.len() != arr_b.len() || arr_a.len() != arr_c.len() {
        return Err(HistError::LengthMismatch);
    }
    let mut events = Histogram3::zeros(nbins_a, nbins_b, nbins_c);
    let n = arr_a.len();
    let mut idx: usize = 0;
    while idx < n
        invariant
            n == arr_a@.len(),
            n == arr_b@.len(),
            n == arr_c@.len(),
            idx <= n,
            first_out3(arr_a@, arr_b@, arr_c@, nbins_a, nbins_b, nbins_c, idx as nat) is None,
            dims3(events) == (nbins_a as nat, nbins_b as nat, nbins_c as nat),
            shaped3(cells3(events), nbins_a as nat, nbins_b as nat, nbins_c as nat),
            forall|x: int, y: int, z: int|
                0 <= x < nbins_a && 0 <= y < nbins_b && 0 <= z < nbins_c ==> #[trigger] cells3(
                    events,
                )[x][y][z] == count3(arr_a@, arr_b@, arr_c@, x, y, z, idx as nat),
        decreases n - idx,
    {
        let ix = arr_a[idx];
        let jx = arr_b[idx];
        let kx = arr_c[idx];
        if ix >= nbins_a || jx >= nbins_b || kx >= nbins_c {
            proof {
                lemma_first_out3_stays(
                    arr_a@,
                    arr_b@,
                    arr_c@,
                    nbins_a,
                    nbins_b,
                    nbins_c,
                    (idx + 1) as nat,
                    n as nat,
                );
            }
            if ix >= nbins_a {
                return Err(HistError::OutOfRange(0));
            } else if jx >= nbins_b {
                return Err(HistError::OutOfRange(1));
            } else {
                return Err(HistError::OutOfRange(2));
            }
        }
        proof {
            lemma_count3_bound(arr_a@, arr_b@, arr_c@, ix as int, jx as int, kx as int, idx as nat);
        }
        let c = events.get(ix, jx, kx);
        events.set(ix, jx, kx, c + 1);
        proof {
            assert forall|x: int, y: int, z: int|
                0 <= x < nbins_a && 0 <= y < nbins_b && 0 <= z < nbins_c implies #[trigger] cells3(
                events,
            )[x][y][z] == count3(arr_a@, arr_b@, arr_c@, x, y, z, (idx + 1) as nat) by {
                assert(count3(arr_a@, arr_b@, arr_c@, x, y, z, (idx + 1) as nat) == count3(
                    arr_a@,
                    arr_b@,
                    arr_c@,
                    x,
                    y,
                    z,
                    idx as nat,
                ) + if arr_a@[idx as int] == x && arr_b@[idx as int] == y && arr_c@[idx as int]
                    == z {
                    1nat
                } else {
                    0nat
                });
            }
        }
        idx = idx + 1;
    }
    proof {
        lemma_first_out3_none(arr_a@, arr_b@, arr_c@, nbins_a, nbins_b, nbins_c, n as nat);
        lemma_hist3_total(cells3(events), arr_a@, arr_b@, arr_c@, nbins_a, nbins_b, nbins_c);
    }
    Ok(events)
}

proof fn lemma_first_out3_none(
    a: Seq<usize>,
    b: Seq<usize>,
    c: Seq<usize>,
    nbins_a: usize,
    nbins_b: usize,
    nbins_c: usize,
    n: nat,
)
    requires
        n <= a.len(),
        n <= b.len(),
        n <= c.len(),
        first_out3(a, b, c, nbins_a, nbins_b, nbins_c, n) is None,
    ensures
        forall|i: int| 0 <= i < n ==> #[trigger] a[i] < nbins_a,
        forall|i: int| 0 <= i < n ==> #[trigger] b[i] < nbins_b,
        forall|i: int| 0 <= i < n ==> #[trigger] c[i] < nbins_c,
    decreases n,
{
    if n > 0 {
        lemma_first_out3_none(a, b, c, nbins_a, nbins_b, nbins_c, (n - 1) as nat);
    }
}

} // verus!
