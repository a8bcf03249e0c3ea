//! The `ndarray` arrays that hold the counts of a histogram.
//!
//! Each histogram keeps its counts in an `ndarray` array in a private field,
//! hidden from Verus. What a histogram holds is named `cells1`, `cells2` and
//! `cells3` (row by row) and its axis lengths `dims2` and `dims3`. The methods
//! below are the only calls into `ndarray`; their contracts restate, over these
//! names, what `ndarray`'s source does.
//!
//! `ndarray::ArrayBase` cannot be declared to Verus as it stands (its
//! `RawData` bound is an outside trait), so the arrays sit in private fields
//! of structs that Verus treats as opaque.
use ndarray::{Array1, Array2, Array3};
use vstd::prelude::*;

verus! {

/// An axis length as a factor of the number of elements that `ndarray`
/// checks: an empty axis counts as 1. `ndarray` refuses to build an array
/// whose product of such factors exceeds `isize::MAX`.
pub open spec fn axis_factor(d: usize) -> int {
    if d == 0 {
        1
    } else {
        d as int
    }
}

/// A rank-1 histogram: one count per category.
#[verifier::external_body]
pub struct Histogram1 {
    counts: Array1<usize>,
}

/// A rank-2 histogram: one count per pair of categories.
#[verifier::external_body]
pub struct Histogram2 {
    counts: Array2<usize>,
}

/// A rank-3 histogram: one count per triple of categories.
#[verifier::external_body]
pub struct Histogram3 {
    counts: Array3<usize>,
}

/// The counts of a rank-1 histogram, in index order.
pub uninterp spec fn cells1(h: Histogram1) -> Seq<usize>;

/// The counts of a rank-2 histogram, as a sequence of rows.
pub uninterp spec fn cells2(h: Histogram2) -> Seq<Seq<usize>>;

/// The axis lengths of a rank-2 histogram.
pub uninterp spec fn dims2(h: Histogram2) -> (nat, nat);

/// The counts of a rank-3 histogram, indexed first, second, third axis.
pub uninterp spec fn cells3(h: Histogram3) -> Seq<Seq<Seq<usize>>>;

/// The axis lengths of a rank-3 histogram.
pub uninterp spec fn dims3(h: Histogram3) -> (nat, nat, nat);

/// The shape of a rank-2 table: `rows` rows of `cols` entries each.
pub open spec fn shaped2<T>(t: Seq<Seq<T>>, rows: nat, cols: nat) -> bool {
    &&& t.len() == rows
    &&& forall|i: int| 0 <= i < rows ==> #[trigger] t[i].len() == cols
}

/// The shape of a rank-3 table.
pub open spec fn shaped3<T>(t: Seq<Seq<Seq<T>>>, d0: nat, d1: nat, d2: nat) -> bool {
    &&& t.len() == d0
    &&& forall|i: int| 0 <= i < d0 ==> shaped2(#[trigger] t[i], d1, d2)
}

impl Histogram1 {
    /// Relies on `Array1::zeros`: `n` counts, all zero (it panics only when
    /// `n` exceeds `isize::MAX`).
    #[verifier::external_body]
    pub(crate) fn zeros(n: usize) -> (r: Histogram1)
        requires
            n <= isize::MAX,
        ensures
            cells1(r) == Seq::new(n as nat, |i: int| 0usize),
    {
        Histogram1 { counts: Array1::zeros(n) }
    }

    /// Relies on indexing `Array1` mutably: stores `v` as the count at `i`.
    #[verifier::external_body]
    pub(crate) fn set(&mut self, i: usize, v: usize)
        requires
            i < cells1(*old(self)).len(),
        ensures
            cells1(*final(self)) == cells1(*old(self)).update(i as int, v),
    {
        self.counts[i] = v;
    }

    /// Relies on `ArrayBase::len`: the number of counts.
    #[verifier::external_body]
    fn len(&self) -> (r: usize)
        ensures
            r == cells1(*self).len(),
    {
        self.counts.len()
    }

    /// Relies on indexing `Array1`: the count at `i`.
    #[verifier::external_body]
    pub(crate) fn get(&self, i: usize) -> (r: usize)
        requires
            i < cells1(*self).len(),
        ensures
            r == cells1(*self)[i as int],
    {
        self.counts[i]
    }
}

impl Histogram2 {
    /// Relies on `Array2::zeros`: a `rows` by `cols` array of zeros (it panics
    /// only when the product of the non-zero lengths exceeds `isize::MAX`).
    #[verifier::external_body]
    pub(crate) fn zeros(rows: usize, cols: usize) -> (r: Histogram2)
        requires
            axis_factor(rows) * axis_factor(cols) <= isize::MAX,
        ensures
            dims2(r) == (rows as nat, cols as nat),
            cells2(r) == Seq::new(rows as nat, |i: int| Seq::new(cols as nat, |j: int| 0usize)),
    {
        Histogram2 { counts: Array2::zeros((rows, cols)) }
    }

    /// Relies on indexing `Array2` mutably: stores `v` as the count at
    /// `(i, j)`.
    #[verifier::external_body]
    pub(crate) fn set(&mut self, i: usize, j: usize, v: usize)
        requires
            shaped2(cells2(*old(self)), dims2(*old(self)).0, dims2(*old(self)).1),
            i < dims2(*old(self)).0,
            j < dims2(*old(self)).1,
        ensures
            dims2(*final(self)) == dims2(*old(self)),
            cells2(*final(self)) == cells2(*old(self)).update(
                i as int,
                cells2(*old(self))[i as int].update(j as int, v),
            ),
    {
        self.counts[(i, j)] = v;
    }

    /// Relies on `ArrayBase::dim`: the two axis lengths (each row of the array
    /// holds as many counts as the second).
    #[verifier::external_body]
    fn dim(&self) -> (r: (usize, usize))
        ensures
            (r.0 as nat, r.1 as nat) == dims2(*self),
            shaped2(cells2(*self), r.0 as nat, r.1 as nat),
    {
        self.counts.dim()
    }

    /// Relies on indexing `Array2`: the count at `(i, j)`.
    #[verifier::external_body]
    pub(crate) fn get(&self, i: usize, j: usize) -> (r: usize)
        requires
            shaped2(cells2(*self), dims2(*self).0, dims2(*self).1),
            i < dims2(*self).0,
            j < dims2(*self).1,
        ensures
            r == cells2(*self)[i as int][j as int],
    {
        self.counts[(i, j)]
    }
}

impl Histogram3 {
    /// Relies on `Array3::zeros`: a `d0` by `d1` by `d2` array of zeros (it
    /// panics only when the product of the non-zero lengths exceeds
    /// `isize::MAX`).
    #[verifier::external_body]
    pub(crate) fn zeros(d0: usize, d1: usize, d2: usize) -> (r: Histogram3)
        requires
            axis_factor(d0) * axis_factor(d1) * axis_factor(d2) <= isize::MAX,
        ensures
            dims3(r) == (d0 as nat, d1 as nat, d2 as nat),
            cells3(r) == Seq::new(
                d0 as nat,
                |i: int| Seq::new(d1 as nat, |j: int| Seq::new(d2 as nat, |k: int| 0usize)),
            ),
    {
        Histogram3 { counts: Array3::zeros((d0, d1, d2)) }
    }

    /// Relies on indexing `Array3` mutably: stores `v` as the count at
    /// `(i, j, k)`.
    #[verifier::external_body]
    pub(crate) fn set(&mut self, i: usize, j: usize, k: usize, v: usize)
        requires
            shaped3(cells3(*old(self)), dims3(*old(self)).0, dims3(*old(self)).1, dims3(*old(self)).2),
            i < dims3(*old(self)).0,
            j < dims3(*old(self)).1,
            k < dims3(*old(self)).2,
        ensures
            dims3(*final(self)) == dims3(*old(self)),
            cells3(*final(self)) == cells3(*old(self)).update(
                i as int,
                cells3(*old(self))[i as int].update(
                    j as int,
                    cells3(*old(self))[i as int][j as int].update(k as int, v),
                ),
            ),
    {
        self.counts[(i, j, k)] = v;
    }

    /// Relies on `ArrayBase::dim`: the three axis lengths (which give the
    /// shape of the nested rows).
    #[verifier::external_body]
    fn dim(&self) -> (r: (usize, usize, usize))
        ensures
            (r.0 as nat, r.1 as nat, r.2 as nat) == dims3(*self),
            shaped3(cells3(*self), r.0 as nat, r.1 as nat, r.2 as nat),
    {
        self.counts.dim()
    }

    /// Relies on indexing `Array3`: the count at `(i, j, k)`.
    #[verifier::external_body]
    pub(crate) fn get(&self, i: usize, j: usize, k: usize) -> (r: usize)
        requires
            shaped3(cells3(*self), dims3(*self).0, dims3(*self).1, dims3(*self).2),
            i < dims3(*self).0,
            j < dims3(*self).1,
            k < dims3(*self).2,
        ensures
            r == cells3(*self)[i as int][j as int][k as int],
    {
        self.counts[(i, j, k)]
    }
}


impl Histogram1 {
    /// The number of categories.
    pub fn nbins(&self) -> (r: usize)
        ensures
            r == cells1(*self).len(),
    {
        self.len()
    }

    /// The counts, in index order.
    pub fn to_vec(&self) -> (r: Vec<usize>)
        ensures
            r@ == cells1(*self),
    {
        let n = self.len();
        let mut out: Vec<usize> = Vec::with_capacity(n);
        let mut i: usize = 0;
        while i < n
            invariant
                n == cells1(*self).len(),
                i <= n,
                out@ == cells1(*self).take(i as int),
            decreases n - i,
        {
            out.push(self.get(i));
            i = i + 1;
            assert(out@ =~= cells1(*self).take(i as int));
        }
        assert(out@ =~= cells1(*self));
        out
    }
}

impl Histogram2 {
    /// The two axis lengths.
    pub fn shape(&self) -> (r: (usize, usize))
        ensures
            (r.0 as nat, r.1 as nat) == dims2(*self),
    {
        self.dim()
    }

    /// The counts, one `Vec` per row.
    pub fn to_vec(&self) -> (r: Vec<Vec<usize>>)
        ensures
            r@.len() == cells2(*self).len(),
            forall|i: int| 0 <= i < r@.len() ==> #[trigger] r@[i]@ == cells2(*self)[i],
    {
        let (rows, cols) = self.dim();
        let mut out: Vec<Vec<usize>> = Vec::with_capacity(rows);
        let mut i: usize = 0;
        while i < rows
            invariant
                shaped2(cells2(*self), rows as nat, cols as nat),
                (rows as nat, cols as nat) == dims2(*self),
                i <= rows,
                out@.len() == i,
                forall|x: int| 0 <= x < i ==> #[trigger] out@[x]@ == cells2(*self)[x],
            decreases rows - i,
        {
            let mut row: Vec<usize> = Vec::with_capacity(cols);
            let mut j: usize = 0;
            while j < cols
                invariant
                    shaped2(cells2(*self), rows as nat, cols as nat),
                    (rows as nat, cols as nat) == dims2(*self),
                    i < rows,
                    j <= cols,
                    row@ == cells2(*self)[i as int].take(j as int),
                decreases cols - j,
            {
                row.push(self.get(i, j));
                j = j + 1;
                assert(row@ =~= cells2(*self)[i as int].take(j as int));
            }
            assert(row@ =~= cells2(*self)[i as int]);
            out.push(row);
            i = i + 1;
        }
        out
    }
}

impl Histogram3 {
    /// The three axis lengths.
    pub fn shape(&self) -> (r: (usize, usize, usize))
        ensures
            (r.0 as nat, r.1 as nat, r.2 as nat) == dims3(*self),
    {
        self.dim()
    }

    /// The counts, nested by first, second and third axis.
    pub fn to_vec(&self) -> (r: Vec<Vec<Vec<usize>>>)
        ensures
            r@.len() == cells3(*self).len(),
            forall|i: int|
                0 <= i < r@.len() ==> (#[trigger] r@[i])@.len() == cells3(*self)[i].len(),
            forall|i: int, j: int|
                0 <= i < r@.len() && 0 <= j < r@[i]@.len() ==> #[trigger] r@[i]@[j]@
                    == cells3(*self)[i][j],
    {
        let (d0, d1, d2) = self.dim();
        let mut out: Vec<Vec<Vec<usize>>> = Vec::with_capacity(d0);
        let mut i: usize = 0;
        while i < d0
            invariant
                shaped3(cells3(*self), d0 as nat, d1 as nat, d2 as nat),
                (d0 as nat, d1 as nat, d2 as nat) == dims3(*self),
                i <= d0,
                out@.len() == i,
                forall|x: int| 0 <= x < i ==> (#[trigger] out@[x])@.len() == d1,
                forall|x: int, y: int|
                    0 <= x < i && 0 <= y < d1 ==> #[trigger] out@[x]@[y]@ == cells3(*self)[x][y],
            decreases d0 - i,
        {
            let mut plane: Vec<Vec<usize>> = Vec::with_capacity(d1);
            let mut j: usize = 0;
            while j < d1
                invariant
                    shaped3(cells3(*self), d0 as nat, d1 as nat, d2 as nat),
                    (d0 as nat, d1 as nat, d2 as nat) == dims3(*self),
                    i < d0,
                    j <= d1,
                    plane@.len() == j,
                    forall|y: int| 0 <= y < j ==> #[trigger] plane@[y]@ == cells3(*self)[i as int][y],
                decreases d1 - j,
            {
                let mut row: Vec<usize> = Vec::with_capacity(d2);
                let mut k: usize = 0;
                while k < d2
                    invariant
                        shaped3(cells3(*self), d0 as nat, d1 as nat, d2 as nat),
                        (d0 as nat, d1 as nat, d2 as nat) == dims3(*self),
                        i < d0,
                        j < d1,
                        k <= d2,
                        row@ == cells3(*self)[i as int][j as int].take(k as int),
                    decreases d2 - k,
                {
                    row.push(self.get(i, j, k));
                    k = k + 1;
                    assert(row@ =~= cells3(*self)[i as int][j as int].take(k as int));
                }
                assert(row@ =~= cells3(*self)[i as int][j as int]);
                plane.push(row);
                j = j + 1;
            }
            out.push(plane);
            i = i + 1;
        }
        out
    }
}

} // verus!
