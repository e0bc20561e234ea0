//! Sequence-form game model: strategy polytopes, the sparse payoff
//! operator, and the exploitability metric.

use crate::fx::{fx_add, fx_mul, fx_sub};
use crate::vecfx::{
    fadd64, fmul64, fsub64, range_max, range_max_s, range_min, range_min_s,
};
use vstd::prelude::*;

verus! {

/// One player's sequence-form strategy space: a forest of decision points
/// over a flat coordinate space of `n` sequences. Decision point `i` owns
/// the contiguous coordinate range `[idx[i], idx[i + 1])` and hangs below
/// parent coordinate `par[i]`.
pub struct StrategyPolytope {
    pub par: Vec<usize>,
    pub idx: Vec<usize>,
}

impl StrategyPolytope {
    /// Number of decision points.
    pub open spec fn k(&self) -> int {
        self.par@.len() as int
    }

    /// Number of coordinates (sequences).
    pub open spec fn n(&self) -> int {
        self.idx@[self.par@.len() as int] as int
    }

    /// Well-formedness: `idx` has one more entry than `par`, is strictly
    /// increasing and ends at `n`; each parent coordinate lies at or before
    /// its decision point's range, so a reverse pass sees children before
    /// parents.
    pub open spec fn wf(&self) -> bool {
        &&& self.idx@.len() == self.par@.len() + 1
        &&& 1 <= self.n() <= 0x4000_0000
        &&& (forall|i: int|
            0 <= i < self.k() ==> (#[trigger] self.idx@[i]) < self.idx@[i + 1])
        &&& (forall|i: int| 0 <= i <= self.k() ==> (#[trigger] self.idx@[i] as int) <= self.n())
        &&& (forall|i: int| 0 <= i < self.k() ==> (#[trigger] self.par@[i]) <= self.idx@[i])
    }

    /// One step of a bottom-up reduction: fold decision point `i`'s owned
    /// range with `min` or `max` and add the result into its parent
    /// coordinate.
    pub open spec fn reduce_step(&self, c: Seq<i64>, i: int, use_max: bool) -> Seq<i64> {
        let l = self.idx@[i] as int;
        let r = self.idx@[i + 1] as int;
        let p = self.par@[i] as int;
        let m = if use_max {
            range_max_s(c, l, r)
        } else {
            range_min_s(c, l, r)
        };
        c.update(p, fadd64(c[p], m))
    }

    /// The cost vector after the reduction has processed decision points
    /// `k - 1` down to `i`.
    pub open spec fn reduce_state(&self, c0: Seq<i64>, i: int, use_max: bool) -> Seq<i64>
        decreases self.k() - i,
    {
        if i >= self.k() {
            c0
        } else {
            self.reduce_step(self.reduce_state(c0, i + 1, use_max), i, use_max)
        }
    }

    /// Root accumulator of the full `min` reduction: the worst-response
    /// value of the cost vector over this polytope.
    pub open spec fn minimize_s(&self, c0: Seq<i64>) -> i64 {
        self.reduce_state(c0, 0, false)[0]
    }

    /// Root accumulator of the full `max` reduction.
    pub open spec fn maximize_s(&self, c0: Seq<i64>) -> i64 {
        self.reduce_state(c0, 0, true)[0]
    }

    /// A fresh polytope with the same parent and index arrays.
    pub fn clone_shape(&self) -> (r: StrategyPolytope)
        ensures
            r.par@ == self.par@,
            r.idx@ == self.idx@,
            r.wf() == self.wf(),
            r.n() == self.n(),
            r.k() == self.k(),
    {
        let par = crate::vecfx::vec_copy_usize(&self.par);
        let idx = crate::vecfx::vec_copy_usize(&self.idx);
        StrategyPolytope { par, idx }
    }

    /// The size of the coordinate space, read off the last `idx` entry.
    pub fn n_coords(&self) -> (n: usize)
        requires
            self.wf(),
        ensures
            n == self.n(),
    {
        self.idx[self.idx.len() - 1]
    }

    pub fn minimize(&self, c: Vec<i64>) -> (r: i64)
        requires
            self.wf(),
            c@.len() == self.n(),
        ensures
            r == self.minimize_s(c@),
    {
        let mut c = c;
        let ghost c0 = c@;
        let mut i: usize = self.par.len();
        while i > 0
            invariant
                self.wf(),
                i <= self.k(),
                c@.len() == self.n(),
                c@ == self.reduce_state(c0, i as int, false),
            decreases i,
        {
            i = i - 1;
            let l: usize = self.idx[i];
            let r: usize = self.idx[i + 1];
            let m: i64 = range_min(&c, l, r);
            let p: usize = self.par[i];
            let v: i64 = fx_add(c[p], m);
            c.set(p, v);
        }
        c[0]
    }

    pub fn maximize(&self, c: Vec<i64>) -> (r: i64)
        requires
            self.wf(),
            c@.len() == self.n(),
        ensures
            r == self.maximize_s(c@),
    {
        let mut c = c;
        let ghost c0 = c@;
        let mut i: usize = self.par.len();
        while i > 0
            invariant
                self.wf(),
                i <= self.k(),
                c@.len() == self.n(),
                c@ == self.reduce_state(c0, i as int, true),
            decreases i,
        {
            i = i - 1;
            let l: usize = self.idx[i];
            let r: usize = self.idx[i + 1];
            let m: i64 = range_max(&c, l, r);
            let p: usize = self.par[i];
            let v: i64 = fx_add(c[p], m);
            c.set(p, v);
        }
        c[0]
    }
}

/// Row-compressed sparse matrix: per row, the column indices and values of
/// its stored entries.
pub struct SparseMatrix {
    pub cols: Vec<Vec<usize>>,
    pub data: Vec<Vec<i64>>,
}

/// The element views of a vector of index vectors.
pub open spec fn nested_view_us(v: Seq<Vec<usize>>) -> Seq<Seq<usize>> {
    Seq::new(v.len(), |i: int| v[i]@)
}

/// The element views of a vector of scalar vectors.
pub open spec fn nested_view_fx(v: Seq<Vec<i64>>) -> Seq<Seq<i64>> {
    Seq::new(v.len(), |i: int| v[i]@)
}

/// Per-row column lists after feeding the first `e` coordinate-list entries.
pub open spec fn csr_cols_s(nr: int, row: Seq<usize>, col: Seq<usize>, e: int) -> Seq<Seq<usize>>
    decreases e,
{
    if e <= 0 {
        Seq::new(nr as nat, |i: int| Seq::<usize>::empty())
    } else {
        let prev = csr_cols_s(nr, row, col, e - 1);
        prev.update(row[e - 1] as int, prev[row[e - 1] as int].push(col[e - 1]))
    }
}

/// Per-row value lists after feeding the first `e` coordinate-list entries.
pub open spec fn csr_data_s(nr: int, row: Seq<usize>, dat: Seq<i64>, e: int) -> Seq<Seq<i64>>
    decreases e,
{
    if e <= 0 {
        Seq::new(nr as nat, |i: int| Seq::<i64>::empty())
    } else {
        let prev = csr_data_s(nr, row, dat, e - 1);
        prev.update(row[e - 1] as int, prev[row[e - 1] as int].push(dat[e - 1]))
    }
}

impl SparseMatrix {
    pub open spec fn rows(&self) -> int {
        self.cols@.len() as int
    }

    /// Well-formedness against a column space of size `nc`: the two nested
    /// vectors are congruent and every stored column index is in range.
    pub open spec fn wf(&self, nc: int) -> bool {
        &&& self.cols@.len() == self.data@.len()
        &&& (forall|i: int|
            0 <= i < self.rows() ==> self.cols@[i]@.len() == self.data@[i]@.len())
        &&& (forall|i: int, j: int|
            0 <= i < self.rows() && 0 <= j < self.cols@[i]@.len() ==> (self.cols@[i]@[j] as int)
                < nc)
    }

    /// Saturating dot product of one stored row with a dense vector, over
    /// the row's first `e` entries.
    pub open spec fn row_dot_s(c: Seq<usize>, d: Seq<i64>, v: Seq<i64>, e: int) -> i64
        decreases e,
    {
        if e <= 0 {
            0
        } else {
            fadd64(Self::row_dot_s(c, d, v, e - 1), fmul64(v[c[e - 1] as int], d[e - 1]))
        }
    }

    /// The whole matrix-vector product.
    pub open spec fn dot_spec(&self, v: Seq<i64>) -> Seq<i64> {
        Seq::new(self.rows() as nat, |i: int|
            Self::row_dot_s(self.cols@[i]@, self.data@[i]@, v, self.cols@[i]@.len() as int))
    }

    fn new(n_row: usize, row: &Vec<usize>, col: &Vec<usize>, dat: &Vec<i64>) -> (m: SparseMatrix)
        requires
            row@.len() == col@.len(),
            row@.len() == dat@.len(),
            forall|e: int| 0 <= e < row@.len() ==> (row@[e] as int) < n_row,
        ensures
            m.cols@.len() == n_row,
            m.data@.len() == n_row,
            nested_view_us(m.cols@) == csr_cols_s(n_row as int, row@, col@, row@.len() as int),
            nested_view_fx(m.data@) == csr_data_s(n_row as int, row@, dat@, row@.len() as int),
    {
        let mut cols: Vec<Vec<usize>> = Vec::new();
        let mut data: Vec<Vec<i64>> = Vec::new();
        let mut i: usize = 0;
        while i < n_row
            invariant
                i <= n_row,
                cols@.len() == i,
                data@.len() == i,
                forall|t: int| 0 <= t < i ==> cols@[t]@.len() == 0,
                forall|t: int| 0 <= t < i ==> data@[t]@.len() == 0,
            decreases n_row - i,
        {
            cols.push(Vec::new());
            data.push(Vec::new());
            i = i + 1;
        }
        proof {
            assert(nested_view_us(cols@) =~~= csr_cols_s(n_row as int, row@, col@, 0)) by {
                assert(forall|t: int|
                    0 <= t < n_row ==> nested_view_us(cols@)[t] =~= Seq::<usize>::empty());
            }
            assert(nested_view_fx(data@) =~~= csr_data_s(n_row as int, row@, dat@, 0)) by {
                assert(forall|t: int|
                    0 <= t < n_row ==> nested_view_fx(data@)[t] =~= Seq::<i64>::empty());
            }
        }
        let mut e: usize = 0;
        while e < row.len()
            invariant
                e <= row@.len(),
                row@.len() == col@.len(),
                row@.len() == dat@.len(),
                forall|t: int| 0 <= t < row@.len() ==> (row@[t] as int) < cols@.len(),
                cols@.len() == n_row,
                data@.len() == n_row,
                nested_view_us(cols@) == csr_cols_s(n_row as int, row@, col@, e as int),
                nested_view_fx(data@) == csr_data_s(n_row as int, row@, dat@, e as int),
            decreases row@.len() - e,
        {
            let r: usize = row[e];
            let ghost pre_cols = nested_view_us(cols@);
            let ghost pre_data = nested_view_fx(data@);
            cols[r].push(col[e]);
            data[r].push(dat[e]);
            proof {
                assert(nested_view_us(cols@) =~~= pre_cols.update(r as int, pre_cols[r as int].push(
                    col@[e as int])));
                assert(nested_view_fx(data@) =~~= pre_data.update(r as int, pre_data[r as int].push(
                    dat@[e as int])));
            }
            e = e + 1;
        }
        SparseMatrix { cols, data }
    }

    pub fn dot(&self, rhs: &Vec<i64>) -> (r: Vec<i64>)
        requires
            self.wf(rhs@.len() as int),
        ensures
            r@ == self.dot_spec(rhs@),
    {
        let mut r: Vec<i64> = Vec::new();
        let mut i: usize = 0;
        while i < self.cols.len()
            invariant
                i <= self.rows(),
                self.wf(rhs@.len() as int),
                r@.len() == i,
                forall|t: int|
                    0 <= t < i ==> r@[t] == Self::row_dot_s(
                        self.cols@[t]@,
                        self.data@[t]@,
                        rhs@,
                        self.cols@[t]@.len() as int,
                    ),
            decreases self.rows() - i,
        {
            let c: &Vec<usize> = &self.cols[i];
            let d: &Vec<i64> = &self.data[i];
            let mut s: i64 = 0;
            let mut j: usize = 0;
            while j < c.len()
                invariant
                    j <= c@.len(),
                    c@.len() == d@.len(),
                    forall|t: int| 0 <= t < c@.len() ==> (c@[t] as int) < rhs@.len(),
                    s == Self::row_dot_s(c@, d@, rhs@, j as int),
                decreases c@.len() - j,
            {
                s = fx_add(s, fx_mul(rhs[c[j]], d[j]));
                j = j + 1;
            }
            r.push(s);
            i = i + 1;
        }
        proof {
            assert(r@ =~= self.dot_spec(rhs@));
        }
        r
    }
}

/// A two-player zero-sum sequence-form game: both strategy polytopes and
/// both orientations of the payoff operator.
pub struct Game {
    pub sp1: StrategyPolytope,
    pub sp2: StrategyPolytope,
    pub mat_a: SparseMatrix,
    pub mat_a_t: SparseMatrix,
}

proof fn lemma_csr_cols_wf(nr: int, row: Seq<usize>, col: Seq<usize>, e: int, nc: int)
    requires
        nr >= 0,
        forall|t: int| 0 <= t < e ==> (col[t] as int) < nc,
        forall|t: int| 0 <= t < e ==> (row[t] as int) < nr,
        e <= row.len(),
        e <= col.len(),
    ensures
        csr_cols_s(nr, row, col, e).len() == nr,
        forall|i: int, j: int|
            0 <= i < nr && 0 <= j < csr_cols_s(nr, row, col, e)[i].len() ==> (csr_cols_s(
                nr,
                row,
                col,
                e,
            )[i][j] as int) < nc,
    decreases e,
{
    if e > 0 {
        lemma_csr_cols_wf(nr, row, col, e - 1, nc);
    }
}

proof fn lemma_csr_congruent(nr: int, row: Seq<usize>, col: Seq<usize>, dat: Seq<i64>, e: int)
    requires
        nr >= 0,
        forall|t: int| 0 <= t < e ==> (row[t] as int) < nr,
        e <= row.len(),
    ensures
        csr_cols_s(nr, row, col, e).len() == nr,
        csr_data_s(nr, row, dat, e).len() == nr,
        forall|i: int|
            0 <= i < nr ==> csr_cols_s(nr, row, col, e)[i].len() == csr_data_s(
                nr,
                row,
                dat,
                e,
            )[i].len(),
    decreases e,
{
    if e > 0 {
        lemma_csr_congruent(nr, row, col, dat, e - 1);
    }
}

impl Game {
    /// Both polytopes well-formed and both operator orientations congruent
    /// with the two coordinate spaces.
    pub open spec fn wf(&self) -> bool {
        &&& self.sp1.wf()
        &&& self.sp2.wf()
        &&& self.mat_a.rows() == self.sp1.n()
        &&& self.mat_a.wf(self.sp2.n())
        &&& self.mat_a_t.rows() == self.sp2.n()
        &&& self.mat_a_t.wf(self.sp1.n())
    }

    /// Builds a game from two polytopes and the coordinate-list encoding of
    /// the payoff operator; both orientations are laid out row-compressed.
    pub fn new(
        sp1: StrategyPolytope,
        sp2: StrategyPolytope,
        row: &Vec<usize>,
        col: &Vec<usize>,
        dat: &Vec<i64>,
    ) -> (g: Game)
        requires
            sp1.wf(),
            sp2.wf(),
            row@.len() == col@.len(),
            row@.len() == dat@.len(),
            forall|e: int| 0 <= e < row@.len() ==> (row@[e] as int) < sp1.n(),
            forall|e: int| 0 <= e < col@.len() ==> (col@[e] as int) < sp2.n(),
        ensures
            g.wf(),
            g.sp1 == sp1,
            g.sp2 == sp2,
            nested_view_us(g.mat_a.cols@) == csr_cols_s(sp1.n(), row@, col@, row@.len() as int),
            nested_view_fx(g.mat_a.data@) == csr_data_s(sp1.n(), row@, dat@, row@.len() as int),
            nested_view_us(g.mat_a_t.cols@) == csr_cols_s(sp2.n(), col@, row@, row@.len() as int),
            nested_view_fx(g.mat_a_t.data@) == csr_data_s(sp2.n(), col@, dat@, row@.len() as int),
    {
        let n1: usize = sp1.idx[sp1.idx.len() - 1];
        let n2: usize = sp2.idx[sp2.idx.len() - 1];
        let mat_a = SparseMatrix::new(n1, row, col, dat);
        let mat_a_t = SparseMatrix::new(n2, col, row, dat);
        proof {
            lemma_csr_cols_wf(n1 as int, row@, col@, row@.len() as int, sp2.n());
            lemma_csr_congruent(n1 as int, row@, col@, dat@, row@.len() as int);
            lemma_csr_cols_wf(n2 as int, col@, row@, row@.len() as int, sp1.n());
            lemma_csr_congruent(n2 as int, col@, row@, dat@, row@.len() as int);
            assert forall|i: int| 0 <= i < mat_a.rows() implies mat_a.cols@[i]@.len()
                == mat_a.data@[i]@.len() by {
                assert(mat_a.cols@[i]@ == nested_view_us(mat_a.cols@)[i]);
                assert(mat_a.data@[i]@ == nested_view_fx(mat_a.data@)[i]);
            }
            assert forall|i: int, j: int|
                0 <= i < mat_a.rows() && 0 <= j < mat_a.cols@[i]@.len() implies (
            mat_a.cols@[i]@[j] as int) < sp2.n() by {
                assert(mat_a.cols@[i]@ == nested_view_us(mat_a.cols@)[i]);
            }
            assert forall|i: int| 0 <= i < mat_a_t.rows() implies mat_a_t.cols@[i]@.len()
                == mat_a_t.data@[i]@.len() by {
                assert(mat_a_t.cols@[i]@ == nested_view_us(mat_a_t.cols@)[i]);
                assert(mat_a_t.data@[i]@ == nested_view_fx(mat_a_t.data@)[i]);
            }
            assert forall|i: int, j: int|
                0 <= i < mat_a_t.rows() && 0 <= j < mat_a_t.cols@[i]@.len() implies (
            mat_a_t.cols@[i]@[j] as int) < sp1.n() by {
                assert(mat_a_t.cols@[i]@ == nested_view_us(mat_a_t.cols@)[i]);
            }
        }
        Game { sp1, sp2, mat_a, mat_a_t }
    }

    /// The exploitability of the pair `(x, y)`: the best response value
    /// against `x` minus the worst response value against `y`.
    pub open spec fn error_s(&self, x: Seq<i64>, y: Seq<i64>) -> i64 {
        fsub64(
            self.sp2.maximize_s(self.mat_a_t.dot_spec(x)),
            self.sp1.minimize_s(self.mat_a.dot_spec(y)),
        )
    }

    /// Duality-gap convergence metric for a strategy pair.
    pub fn error(&self, x: &Vec<i64>, y: &Vec<i64>) -> (r: i64)
        requires
            self.wf(),
            x@.len() == self.sp1.n(),
            y@.len() == self.sp2.n(),
        ensures
            r == self.error_s(x@, y@),
    {
        let lo: i64 = self.sp1.minimize(self.mat_a.dot(y));
        let hi: i64 = self.sp2.maximize(self.mat_a_t.dot(x));
        fx_sub(hi, lo)
    }
}

} // verus!
