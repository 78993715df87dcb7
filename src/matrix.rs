//! Dense matrices of scalar expressions.
use crate::value::{Node, Value};
use vstd::prelude::*;

verus! {

/// A `rows × cols` grid of scalar expressions, stored row by row.
#[derive(Clone)]
pub struct Matrix {
    pub data: Vec<Vec<Value>>,
    pub rows: usize,
    pub cols: usize,
}

/// The rows of `m` as sequences.
pub open spec fn rows_of(m: Seq<Vec<Value>>) -> Seq<Seq<Value>> {
    m.map_values(|r: Vec<Value>| r@)
}

/// `v` is the expression `((0 + a(i,0)·b(0,j)) + a(i,1)·b(1,j)) + ... + a(i,k-1)·b(k-1,j)`:
/// the first `k` terms of the inner product of row `i` of `a` and column `j` of `b`.
pub open spec fn is_dot(v: Value, a: Seq<Seq<Value>>, b: Seq<Seq<Value>>, i: int, j: int, k: nat) -> bool
    decreases k,
{
    if k == 0 {
        v.term() == Node::Num(0)
    } else {
        match v.term() {
            Node::Add(s, p) => is_dot(s, a, b, i, j, (k - 1) as nat) && p.term() == Node::Mul(
                a[i][k - 1],
                b[k - 1][j],
            ),
            _ => false,
        }
    }
}

/// The values `v[start .. start + len]`, as handles on the same nodes.
pub fn slice_of(v: &Vec<Value>, start: usize, len: usize) -> (r: Vec<Value>)
    requires
        start + len <= v@.len(),
    ensures
        r@ == v@.subrange(start as int, start + len),
{
    let n: usize = v.len();
    let mut r: Vec<Value> = Vec::new();
    let mut k: usize = 0;
    while k < len
        invariant
            start + len <= v@.len(),
            n == v@.len(),
            k <= len,
            r@ == v@.subrange(start as int, start + k),
        decreases len - k,
    {
        r.push(v[start + k].c());
        k += 1;
    }
    r
}

/// `v` is `d + c`, where `d` is the inner product expression of [`is_dot`].
pub open spec fn is_dot_plus(
    v: Value,
    a: Seq<Seq<Value>>,
    b: Seq<Seq<Value>>,
    c: Value,
    i: int,
    j: int,
    k: nat,
) -> bool {
    v.term() matches Node::Add(d, t) && t == c && is_dot(d, a, b, i, j, k)
}

/// Two expressions built the same way from the same factors are the same expression.
pub proof fn lemma_is_dot_unique(
    v1: Value,
    v2: Value,
    a: Seq<Seq<Value>>,
    b: Seq<Seq<Value>>,
    i: int,
    j: int,
    k: nat,
)
    requires
        is_dot(v1, a, b, i, j, k),
        is_dot(v2, a, b, i, j, k),
    ensures
        v1 == v2,
    decreases k,
{
    if k > 0 {
        match (v1.term(), v2.term()) {
            (Node::Add(s1, p1), Node::Add(s2, p2)) => {
                lemma_is_dot_unique(s1, s2, a, b, i, j, (k - 1) as nat);
                assert(p1.node == p2.node);
            },
            _ => {},
        }
    }
    assert(v1.node == v2.node);
}

/// Multiplying and then adding follows the usual parenthesisation
/// `(A·B) + C`: entry `(i, j)` of the result is the sum of products of row `i`
/// of `A` and column `j` of `B`, plus `C(i, j)`.
pub proof fn lemma_mul_then_add(a: Matrix, b: Matrix, c: Matrix, p: Matrix, r: Matrix)
    requires
        a.wf(),
        b.wf(),
        c.wf(),
        a.cols == b.rows,
        p.is_product_of(a, b),
        c.rows == p.rows,
        c.cols == p.cols,
        r.is_sum_of(p, c),
    ensures
        r.wf(),
        r.rows == a.rows,
        r.cols == b.cols,
        forall|i: int, j: int|
            0 <= i < a.rows && 0 <= j < b.cols ==> is_dot_plus(
                #[trigger] r.at(i, j),
                a.grid(),
                b.grid(),
                c.at(i, j),
                i,
                j,
                a.cols as nat,
            ),
{
    assert forall|i: int, j: int| 0 <= i < a.rows && 0 <= j < b.cols implies is_dot_plus(
        #[trigger] r.at(i, j),
        a.grid(),
        b.grid(),
        c.at(i, j),
        i,
        j,
        a.cols as nat,
    ) by {
        assert(r.at(i, j).term() == Node::Add(p.at(i, j), c.at(i, j)));
        assert(is_dot(p.at(i, j), a.grid(), b.grid(), i, j, a.cols as nat));
    }
}

impl Matrix {
    /// The grid has exactly `rows` rows of `cols` entries each.
    pub open spec fn wf(self) -> bool {
        &&& self.grid().len() == self.rows
        &&& forall|i: int| 0 <= i < self.rows ==> (#[trigger] self.grid()[i]).len() == self.cols
    }

    /// The entries as a sequence of rows.
    pub open spec fn grid(self) -> Seq<Seq<Value>> {
        rows_of(self.data@)
    }

    pub open spec fn at(self, i: int, j: int) -> Value {
        self.grid()[i][j]
    }

    /// All entries, row by row.
    pub open spec fn entries(self) -> Seq<Value> {
        rows_of(self.data@).flatten()
    }

    /// Entry `(i, j)` of `self · rhs` is the sum of products of row `i` and column `j`.
    pub open spec fn is_product_of(self, a: Matrix, b: Matrix) -> bool {
        &&& self.wf()
        &&& self.rows == a.rows
        &&& self.cols == b.cols
        &&& forall|i: int, j: int|
            0 <= i < self.rows && 0 <= j < self.cols ==> is_dot(
                #[trigger] self.at(i, j),
                a.grid(),
                b.grid(),
                i,
                j,
                a.cols as nat,
            )
    }

    /// Entry `(i, j)` of `self` is `a(i, j) + b(i, j)`.
    pub open spec fn is_sum_of(self, a: Matrix, b: Matrix) -> bool {
        &&& self.wf()
        &&& self.rows == a.rows
        &&& self.cols == a.cols
        &&& forall|i: int, j: int|
            0 <= i < self.rows && 0 <= j < self.cols ==> (#[trigger] self.at(i, j)).term()
                == Node::Add(a.at(i, j), b.at(i, j))
    }

    /// A `rows × cols` matrix of zeros.
    pub fn new(rows: usize, cols: usize) -> (r: Matrix)
        ensures
            r.wf(),
            r.rows == rows,
            r.cols == cols,
            forall|i: int, j: int|
                0 <= i < rows && 0 <= j < cols ==> (#[trigger] r.at(i, j)).term() == Node::Num(0),
    {
        let mut data: Vec<Vec<Value>> = Vec::new();
        let mut i: usize = 0;
        while i < rows
            invariant
                i <= rows,
                data@.len() == i,
                forall|a: int| 0 <= a < i ==> (#[trigger] data@[a])@.len() == cols,
                forall|a: int, b: int|
                    0 <= a < i && 0 <= b < cols ==> (#[trigger] data@[a]@[b]).term() == Node::Num(0),
            decreases rows - i,
        {
            let mut row: Vec<Value> = Vec::new();
            let mut j: usize = 0;
            while j < cols
                invariant
                    j <= cols,
                    row@.len() == j,
                    forall|b: int| 0 <= b < j ==> (#[trigger] row@[b]).term() == Node::Num(0),
                decreases cols - j,
            {
                row.push(Value::zero());
                j += 1;
            }
            data.push(row);
            i += 1;
        }
        Matrix { data, rows, cols }
    }

    /// A `rows × cols` matrix whose entries are `draws`, taken row by row.
    /// The caller draws them (uniformly from [-1, 1) for a fresh random matrix).
    pub fn random(rows: usize, cols: usize, draws: &Vec<Value>) -> (r: Matrix)
        requires
            draws@.len() == rows * cols,
        ensures
            r.wf(),
            r.rows == rows,
            r.cols == cols,
            r.entries() == draws@,
    {
        let n: usize = draws.len();
        let mut data: Vec<Vec<Value>> = Vec::new();
        let mut k: usize = 0;
        let mut i: usize = 0;
        while i < rows
            invariant
                i <= rows,
                draws@.len() == rows * cols,
                n == draws@.len(),
                k == i * cols,
                data@.len() == i,
                forall|a: int| 0 <= a < i ==> (#[trigger] data@[a])@.len() == cols,
                rows_of(data@).flatten() == draws@.subrange(0, k as int),
            decreases rows - i,
        {
            assert((i + 1) * cols <= rows * cols) by (nonlinear_arith)
                requires
                    i < rows,
            ;
            assert((i + 1) * cols == i * cols + cols) by (nonlinear_arith);
            let mut row: Vec<Value> = Vec::new();
            let mut j: usize = 0;
            while j < cols
                invariant
                    j <= cols,
                    k + cols <= n,
                    n == draws@.len(),
                    row@ == draws@.subrange(k as int, k + j),
                decreases cols - j,
            {
                row.push(draws[k + j].c());
                j += 1;
            }
            proof {
                Seq::lemma_flatten_push(rows_of(data@), row@);
                assert(rows_of(data@.push(row)) == rows_of(data@).push(row@));
                assert(draws@.subrange(0, k as int) + draws@.subrange(k as int, k + cols)
                    == draws@.subrange(0, k + cols));
            }
            data.push(row);
            k = k + cols;
            i += 1;
        }
        assert(draws@.subrange(0, k as int) == draws@);
        Matrix { data, rows, cols }
    }

    /// A copy of this matrix; its entries are handles on the same nodes.
    pub fn c(&self) -> (r: Matrix)
        ensures
            r.rows == self.rows,
            r.cols == self.cols,
            r.grid() == self.grid(),
    {
        let mut data: Vec<Vec<Value>> = Vec::new();
        let mut i: usize = 0;
        while i < self.data.len()
            invariant
                i <= self.data@.len(),
                data@.len() == i,
                forall|a: int| 0 <= a < i ==> (#[trigger] data@[a])@ == self.data@[a]@,
            decreases self.data@.len() - i,
        {
            let src = &self.data[i];
            let mut row: Vec<Value> = Vec::new();
            let mut j: usize = 0;
            while j < src.len()
                invariant
                    j <= src@.len(),
                    row@ == src@.subrange(0, j as int),
                decreases src@.len() - j,
            {
                row.push(src[j].c());
                j += 1;
            }
            assert(row@ == src@.subrange(0, src@.len() as int));
            data.push(row);
            i += 1;
        }
        assert(rows_of(data@) =~= rows_of(self.data@));
        Matrix { data, rows: self.rows, cols: self.cols }
    }

    pub fn get(&self, row: usize, col: usize) -> (r: Value)
        requires
            self.wf(),
            row < self.rows,
            col < self.cols,
        ensures
            r == self.at(row as int, col as int),
    {
        self.data[row][col].c()
    }

    pub fn set(&mut self, row: usize, col: usize, val: Value)
        requires
            old(self).wf(),
            row < old(self).rows,
            col < old(self).cols,
        ensures
            final(self).wf(),
            final(self).rows == old(self).rows,
            final(self).cols == old(self).cols,
            final(self).grid() == old(self).grid().update(
                row as int,
                old(self).grid()[row as int].update(col as int, val),
            ),
    {
        let ghost before = self.grid();
        let mut line: Vec<Value> = Vec::new();
        std::mem::swap(&mut line, &mut self.data[row]);
        assert(line@ == before[row as int]);
        line[col] = val;
        std::mem::swap(&mut line, &mut self.data[row]);
        assert(self.grid() =~= before.update(row as int, before[row as int].update(col as int, val)));
    }

    /// A column vector holding `values` in order.
    pub fn column(values: Vec<Value>) -> (r: Matrix)
        ensures
            r.wf(),
            r.rows == values@.len(),
            r.cols == 1,
            forall|i: int| 0 <= i < values@.len() ==> #[trigger] r.at(i, 0) == values@[i],
    {
        let mut data: Vec<Vec<Value>> = Vec::new();
        let mut i: usize = 0;
        while i < values.len()
            invariant
                i <= values@.len(),
                data@.len() == i,
                forall|a: int| 0 <= a < i ==> (#[trigger] data@[a])@ == seq![values@[a]],
            decreases values@.len() - i,
        {
            let mut row: Vec<Value> = Vec::new();
            row.push(values[i].c());
            data.push(row);
            i += 1;
        }
        let rows = data.len();
        Matrix { data, rows, cols: 1 }
    }

    /// The rows of the matrix.
    pub fn into_iter(self) -> (r: Vec<Vec<Value>>)
        ensures
            r == self.data,
    {
        self.data
    }

    /// Applies `f(value, row, col)` to every entry, in place.
    pub fn apply<F: Fn(Value, usize, usize) -> Value>(&mut self, f: F)
        requires
            old(self).wf(),
            forall|i: int, j: int|
                0 <= i < old(self).rows && 0 <= j < old(self).cols ==> f.requires(
                    (#[trigger] old(self).at(i, j), i as usize, j as usize),
                ),
        ensures
            final(self).wf(),
            final(self).rows == old(self).rows,
            final(self).cols == old(self).cols,
            forall|i: int, j: int|
                0 <= i < old(self).rows && 0 <= j < old(self).cols ==> f.ensures(
                    (old(self).at(i, j), i as usize, j as usize),
                    #[trigger] final(self).at(i, j),
                ),
    {
        let mut data: Vec<Vec<Value>> = Vec::new();
        let mut i: usize = 0;
        while i < self.rows
            invariant
                self.wf(),
                i <= self.rows,
                data@.len() == i,
                forall|a: int| 0 <= a < i ==> (#[trigger] data@[a])@.len() == self.cols,
                forall|a: int, b: int|
                    0 <= a < self.rows && 0 <= b < self.cols ==> f.requires(
                        (#[trigger] self.at(a, b), a as usize, b as usize),
                    ),
                forall|a: int, b: int|
                    0 <= a < i && 0 <= b < self.cols ==> f.ensures(
                        (self.at(a, b), a as usize, b as usize),
                        #[trigger] data@[a]@[b],
                    ),
            decreases self.rows - i,
        {
            let mut row: Vec<Value> = Vec::new();
            let mut j: usize = 0;
            while j < self.cols
                invariant
                    self.wf(),
                    i < self.rows,
                    j <= self.cols,
                    row@.len() == j,
                    forall|a: int, b: int|
                        0 <= a < self.rows && 0 <= b < self.cols ==> f.requires(
                            (#[trigger] self.at(a, b), a as usize, b as usize),
                        ),
                    forall|b: int|
                        0 <= b < j ==> f.ensures(
                            (self.at(i as int, b), i, b as usize),
                            #[trigger] row@[b],
                        ),
                decreases self.cols - j,
            {
                assert(f.requires((self.at(i as int, j as int), i, j)));
                let v = f(self.data[i][j].c(), i, j);
                row.push(v);
                j += 1;
            }
            data.push(row);
            i += 1;
        }
        let ghost before = *self;
        self.data = data;
        assert forall|a: int, b: int|
            0 <= a < before.rows && 0 <= b < before.cols implies f.ensures(
                (before.at(a, b), a as usize, b as usize),
                #[trigger] self.at(a, b),
            ) by {}
    }

    /// Applies `f(value, row, col)` to every entry and returns the result.
    pub fn map<F: Fn(Value, usize, usize) -> Value>(self, f: F) -> (r: Matrix)
        requires
            self.wf(),
            forall|i: int, j: int|
                0 <= i < self.rows && 0 <= j < self.cols ==> f.requires(
                    (#[trigger] self.at(i, j), i as usize, j as usize),
                ),
        ensures
            r.wf(),
            r.rows == self.rows,
            r.cols == self.cols,
            forall|i: int, j: int|
                0 <= i < self.rows && 0 <= j < self.cols ==> f.ensures(
                    (self.at(i, j), i as usize, j as usize),
                    #[trigger] r.at(i, j),
                ),
    {
        let mut m = self;
        m.apply(f);
        m
    }

    /// The product `self · rhs`; each entry is a new sum-of-products expression.
    pub fn mul(self, rhs: Matrix) -> (r: Matrix)
        requires
            self.wf(),
            rhs.wf(),
            self.cols == rhs.rows,
        ensures
            r.is_product_of(self, rhs),
    {
        let mut data: Vec<Vec<Value>> = Vec::new();
        let mut i: usize = 0;
        while i < self.rows
            invariant
                self.wf(),
                rhs.wf(),
                self.cols == rhs.rows,
                i <= self.rows,
                data@.len() == i,
                forall|a: int| 0 <= a < i ==> (#[trigger] data@[a])@.len() == rhs.cols,
                forall|a: int, b: int|
                    0 <= a < i && 0 <= b < rhs.cols ==> is_dot(
                        #[trigger] data@[a]@[b],
                        self.grid(),
                        rhs.grid(),
                        a,
                        b,
                        self.cols as nat,
                    ),
            decreases self.rows - i,
        {
            let mut row: Vec<Value> = Vec::new();
            let mut j: usize = 0;
            while j < rhs.cols
                invariant
                    self.wf(),
                    rhs.wf(),
                    self.cols == rhs.rows,
                    i < self.rows,
                    j <= rhs.cols,
                    row@.len() == j,
                    forall|b: int|
                        0 <= b < j ==> is_dot(
                            #[trigger] row@[b],
                            self.grid(),
                            rhs.grid(),
                            i as int,
                            b,
                            self.cols as nat,
                        ),
                decreases rhs.cols - j,
            {
                let mut sum = Value::zero();
                let mut k: usize = 0;
                while k < self.cols
                    invariant
                        self.wf(),
                        rhs.wf(),
                        self.cols == rhs.rows,
                        i < self.rows,
                        j < rhs.cols,
                        k <= self.cols,
                        is_dot(sum, self.grid(), rhs.grid(), i as int, j as int, k as nat),
                    decreases self.cols - k,
                {
                    let p = self.get(i, k).times(rhs.get(k, j));
                    sum = sum.plus(p);
                    k += 1;
                }
                row.push(sum);
                j += 1;
            }
            data.push(row);
            i += 1;
        }
        Matrix { data, rows: self.rows, cols: rhs.cols }
    }

    /// The entrywise sum `self + rhs`; each entry is a new sum expression.
    pub fn add(self, rhs: Matrix) -> (r: Matrix)
        requires
            self.wf(),
            rhs.wf(),
            self.rows == rhs.rows,
            self.cols == rhs.cols,
        ensures
            r.is_sum_of(self, rhs),
    {
        let mut data: Vec<Vec<Value>> = Vec::new();
        let mut i: usize = 0;
        while i < self.rows
            invariant
                self.wf(),
                rhs.wf(),
                self.rows == rhs.rows,
                self.cols == rhs.cols,
                i <= self.rows,
                data@.len() == i,
                forall|a: int| 0 <= a < i ==> (#[trigger] data@[a])@.len() == self.cols,
                forall|a: int, b: int|
                    0 <= a < i && 0 <= b < self.cols ==> (#[trigger] data@[a]@[b]).term()
                        == Node::Add(self.at(a, b), rhs.at(a, b)),
            decreases self.rows - i,
        {
            let mut row: Vec<Value> = Vec::new();
            let mut j: usize = 0;
            while j < self.cols
                invariant
                    self.wf(),
                    rhs.wf(),
                    self.rows == rhs.rows,
                    self.cols == rhs.cols,
                    i < self.rows,
                    j <= self.cols,
                    row@.len() == j,
                    forall|b: int|
                        0 <= b < j ==> (#[trigger] row@[b]).term() == Node::Add(
                            self.at(i as int, b),
                            rhs.at(i as int, b),
                        ),
                decreases self.cols - j,
            {
                row.push(self.get(i, j).plus(rhs.get(i, j)));
                j += 1;
            }
            data.push(row);
            i += 1;
        }
        Matrix { data, rows: self.rows, cols: self.cols }
    }

    /// All entries, row by row.
    pub fn entries_vec(&self) -> (r: Vec<Value>)
        requires
            self.wf(),
        ensures
            r@ == self.entries(),
    {
        let mut r: Vec<Value> = Vec::new();
        let mut i: usize = 0;
        while i < self.rows
            invariant
                self.wf(),
                i <= self.rows,
                r@ == rows_of(self.data@.take(i as int)).flatten(),
            decreases self.rows - i,
        {
            let ghost before = r@;
            let row = &self.data[i];
            let mut j: usize = 0;
            while j < row.len()
                invariant
                    j <= row@.len(),
                    r@ == before + row@.take(j as int),
                decreases row@.len() - j,
            {
                r.push(row[j].c());
                proof {
                    assert(row@.take(j + 1) == row@.take(j as int).push(row@[j as int]));
                }
                j += 1;
            }
            proof {
                assert(row@.take(j as int) == row@);
                Seq::lemma_flatten_push(rows_of(self.data@.take(i as int)), row@);
                assert(rows_of(self.data@.take(i + 1)) == rows_of(self.data@.take(i as int)).push(
                    row@,
                ));
            }
            i += 1;
        }
        assert(self.data@.take(i as int) == self.data@);
        r
    }
}

} // verus!
