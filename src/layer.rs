//! Feed-forward networks: layers of `tanh(W·x + b)` stacked in order.
use crate::matrix::{is_dot, slice_of, Matrix};
use crate::value::{Node, Value};
use vstd::prelude::*;

verus! {

/// A layer of `neuron_cnt` neurons over `inp_size` inputs: weights
/// `neuron_cnt × inp_size` and a bias column `neuron_cnt × 1`.
pub struct TanhLayer {
    pub weights: Matrix,
    pub bias: Matrix,
}

/// `v` is `tanh((w·x)(i) + b(i))`, where `(w·x)(i)` is the sum of products of
/// row `i` of `w` and the column vector `x`.
pub open spec fn is_tanh_affine_at(v: Value, w: Matrix, b: Matrix, x: Matrix, i: int) -> bool {
    v.term() matches Node::Tanh(s) && (s.term() matches Node::Add(p, c) && c == b.at(i, 0)
        && is_dot(p, w.grid(), x.grid(), i, 0, w.cols as nat))
}

/// `r` is `tanh` applied to every entry of `w·x + b`, for a column vector `x`.
pub open spec fn is_tanh_affine(w: Matrix, b: Matrix, x: Matrix, r: Matrix) -> bool {
    &&& r.wf()
    &&& r.rows == w.rows
    &&& r.cols == 1
    &&& forall|i: int| 0 <= i < w.rows ==> is_tanh_affine_at(#[trigger] r.at(i, 0), w, b, x, i)
}

/// `v` is the hyperbolic tangent of `u`.
pub open spec fn is_tanh_of(u: Value, v: Value) -> bool {
    v.term() == Node::Tanh(u)
}

/// Applies `tanh` to every entry of `m`.
fn tanh_all(m: Matrix) -> (r: Matrix)
    requires
        m.wf(),
    ensures
        r.wf(),
        r.rows == m.rows,
        r.cols == m.cols,
        forall|i: int, j: int|
            0 <= i < m.rows && 0 <= j < m.cols ==> is_tanh_of(m.at(i, j), #[trigger] r.at(i, j)),
{
    m.map(tanh_entry)
}

/// `tanh` of one entry; its position does not matter.
pub(crate) fn tanh_entry(val: Value, _row: usize, _col: usize) -> (o: Value)
    ensures
        is_tanh_of(val, o),
{
    val.tanh()
}

impl TanhLayer {
    pub open spec fn wf(self) -> bool {
        &&& self.weights.wf()
        &&& self.bias.wf()
        &&& self.bias.rows == self.weights.rows
        &&& self.bias.cols == 1
    }

    /// The number of inputs.
    pub open spec fn inputs(self) -> nat {
        self.weights.cols as nat
    }

    /// The number of neurons, which is the number of outputs.
    pub open spec fn neurons(self) -> nat {
        self.weights.rows as nat
    }

    /// A layer whose weights (row by row) and biases are the given draws; the
    /// caller draws them uniformly from [-1, 1).
    pub fn random01(
        inp_size: usize,
        neuron_cnt: usize,
        weight_draws: &Vec<Value>,
        bias_draws: &Vec<Value>,
    ) -> (r: TanhLayer)
        requires
            weight_draws@.len() == neuron_cnt * inp_size,
            bias_draws@.len() == neuron_cnt,
        ensures
            r.wf(),
            r.inputs() == inp_size,
            r.neurons() == neuron_cnt,
            r.weights.entries() == weight_draws@,
            r.bias.entries() == bias_draws@,
    {
        let weights = Matrix::random(neuron_cnt, inp_size, weight_draws);
        let bias = Matrix::random(neuron_cnt, 1, bias_draws);
        TanhLayer { weights, bias }
    }

    /// The trainable values: the weights row by row, then the biases.
    pub open spec fn param_seq(self) -> Seq<Value> {
        self.weights.entries() + self.bias.entries()
    }

    /// The number of trainable values.
    pub open spec fn param_count(self) -> nat {
        (self.weights.rows * self.weights.cols + self.bias.rows) as nat
    }

    pub fn params(&self) -> (r: Vec<Value>)
        requires
            self.wf(),
        ensures
            r@ == self.param_seq(),
    {
        let mut r = self.weights.entries_vec();
        let mut b = self.bias.entries_vec();
        r.append(&mut b);
        r
    }

    /// Replaces every trainable value, in the order of `params`.
    pub fn set_params(&mut self, vals: &Vec<Value>)
        requires
            old(self).wf(),
            vals@.len() == old(self).param_count(),
        ensures
            final(self).wf(),
            final(self).weights.rows == old(self).weights.rows,
            final(self).weights.cols == old(self).weights.cols,
            final(self).param_seq() == vals@,
    {
        let total: usize = vals.len();
        let rows = self.weights.rows;
        let cols = self.weights.cols;
        let nw = rows * cols;
        let w = slice_of(vals, 0, nw);
        let b = slice_of(vals, nw, rows);
        self.weights = Matrix::random(rows, cols, &w);
        self.bias = Matrix::random(rows, 1, &b);
        assert(vals@.subrange(0, nw as int) + vals@.subrange(nw as int, nw + rows) =~= vals@);
    }

    /// `tanh(W·x + b)` for a column vector `x` with one entry per input.
    pub fn forward(&self, x: Matrix) -> (r: Matrix)
        requires
            self.wf(),
            x.wf(),
            x.rows == self.inputs(),
            x.cols == 1,
        ensures
            is_tanh_affine(self.weights, self.bias, x, r),
    {
        let p = self.weights.c().mul(x);
        let s = p.add(self.bias.c());
        let r = tanh_all(s);
        assert forall|i: int| 0 <= i < self.weights.rows implies is_tanh_affine_at(
            #[trigger] r.at(i, 0),
            self.weights,
            self.bias,
            x,
            i,
        ) by {
            assert(is_tanh_of(s.at(i, 0), r.at(i, 0)));
            assert(s.at(i, 0).term() == Node::Add(p.at(i, 0), self.bias.at(i, 0)));
            assert(is_dot(p.at(i, 0), self.weights.grid(), x.grid(), i, 0, self.weights.cols as nat));
        }
        r
    }
}

/// A stack of layers; the outputs of each layer are the inputs of the next.
pub struct LayeredNetwork {
    pub layers: Vec<TanhLayer>,
}

/// `xs` lists the matrices that the layers `ls` pass on: `xs[0]` goes into
/// the first layer and layer `l` makes `xs[l + 1]` of `xs[l]`.
pub open spec fn is_chain(ls: Seq<TanhLayer>, xs: Seq<Matrix>) -> bool {
    &&& xs.len() == ls.len() + 1
    &&& forall|l: int|
        0 <= l < ls.len() ==> is_tanh_affine(
            (#[trigger] ls[l]).weights,
            ls[l].bias,
            xs[l],
            xs[l + 1],
        )
}

/// `r` is what the layers `ls`, applied in order, make of `x`.
pub open spec fn is_forward(ls: Seq<TanhLayer>, x: Matrix, r: Matrix) -> bool {
    exists|xs: Seq<Matrix>| #[trigger] is_chain(ls, xs) && xs[0] == x && xs.last() == r
}

/// The trainable values of the layers `ls`, layer by layer.
pub open spec fn layers_params(ls: Seq<TanhLayer>) -> Seq<Value>
    decreases ls.len(),
{
    if ls.len() == 0 {
        Seq::empty()
    } else {
        layers_params(ls.drop_last()) + ls.last().param_seq()
    }
}

/// The number of trainable values of the layers `ls`.
pub open spec fn layers_count(ls: Seq<TanhLayer>) -> nat
    decreases ls.len(),
{
    if ls.len() == 0 {
        0
    } else {
        layers_count(ls.drop_last()) + ls.last().param_count()
    }
}

/// Whatever the widths, the output of a non-empty stack is a column with one
/// entry per neuron of the last layer, and each entry is a `tanh`.
pub proof fn lemma_forward_ends_in_tanh(net: LayeredNetwork, x: Matrix, r: Matrix)
    requires
        net.wf(),
        net.layers@.len() > 0,
        is_forward(net.layers@, x, r),
    ensures
        r.wf(),
        r.cols == 1,
        r.rows == net.layers@.last().neurons(),
        forall|i: int| 0 <= i < r.rows ==> (#[trigger] r.at(i, 0)).term() is Tanh,
{
    let ls = net.layers@;
    let xs = choose|xs: Seq<Matrix>| #[trigger] is_chain(ls, xs) && xs[0] == x && xs.last() == r;
    let l = ls.len() - 1;
    assert(is_tanh_affine(ls[l].weights, ls[l].bias, xs[l], xs[l + 1]));
    assert forall|i: int| 0 <= i < r.rows implies (#[trigger] r.at(i, 0)).term() is Tanh by {
        assert(is_tanh_affine_at(r.at(i, 0), ls[l].weights, ls[l].bias, xs[l], i));
    }
}

proof fn lemma_layers_count_prefix(ls: Seq<TanhLayer>, l: int)
    requires
        0 <= l <= ls.len(),
    ensures
        layers_count(ls.take(l)) <= layers_count(ls),
    decreases ls.len() - l,
{
    if l < ls.len() {
        lemma_layers_count_prefix(ls, l + 1);
        assert(ls.take(l + 1).drop_last() == ls.take(l));
    } else {
        assert(ls.take(l) == ls);
    }
}

impl LayeredNetwork {
    pub open spec fn wf(self) -> bool {
        &&& forall|l: int| 0 <= l < self.layers@.len() ==> (#[trigger] self.layers@[l]).wf()
        &&& forall|l: int|
            0 <= l < self.layers@.len() - 1 ==> (#[trigger] self.layers@[l]).neurons()
                == self.layers@[l + 1].inputs()
    }

    /// One layer for each pair of neighbouring widths in `shape`: layer `l` has
    /// `shape[l]` inputs and `shape[l + 1]` neurons, and takes its weights and
    /// biases from `draws[l]`.
    pub fn random01(shape: Vec<usize>, draws: &Vec<(Vec<Value>, Vec<Value>)>) -> (r: LayeredNetwork)
        requires
            shape@.len() >= 1,
            draws@.len() == shape@.len() - 1,
            forall|l: int|
                0 <= l < draws@.len() ==> (#[trigger] draws@[l]).0@.len() == shape@[l + 1]
                    * shape@[l] && draws@[l].1@.len() == shape@[l + 1],
        ensures
            r.wf(),
            r.layers@.len() == shape@.len() - 1,
            forall|l: int|
                0 <= l < r.layers@.len() ==> {
                    &&& (#[trigger] r.layers@[l]).inputs() == shape@[l]
                    &&& r.layers@[l].neurons() == shape@[l + 1]
                    &&& r.layers@[l].weights.entries() == draws@[l].0@
                    &&& r.layers@[l].bias.entries() == draws@[l].1@
                },
    {
        let mut layers: Vec<TanhLayer> = Vec::new();
        let mut l: usize = 0;
        while l < draws.len()
            invariant
                shape@.len() >= 1,
                draws@.len() == shape@.len() - 1,
                forall|q: int|
                    0 <= q < draws@.len() ==> (#[trigger] draws@[q]).0@.len() == shape@[q + 1]
                        * shape@[q] && draws@[q].1@.len() == shape@[q + 1],
                l <= draws@.len(),
                layers@.len() == l,
                forall|q: int|
                    0 <= q < l ==> {
                        &&& (#[trigger] layers@[q]).wf()
                        &&& layers@[q].inputs() == shape@[q]
                        &&& layers@[q].neurons() == shape@[q + 1]
                        &&& layers@[q].weights.entries() == draws@[q].0@
                        &&& layers@[q].bias.entries() == draws@[q].1@
                    },
            decreases shape@.len() - l,
        {
            let d = &draws[l];
            layers.push(TanhLayer::random01(shape[l], shape[l + 1], &d.0, &d.1));
            l += 1;
        }
        LayeredNetwork { layers }
    }

    /// Passes the column vector `x` through every layer in order. With at least
    /// one layer the result is a column with one `tanh` entry per neuron of the
    /// last layer.
    pub fn forward(&self, x: Matrix) -> (r: Matrix)
        requires
            self.wf(),
            x.wf(),
            x.cols == 1,
            self.layers@.len() > 0 ==> x.rows == self.layers@[0].inputs(),
        ensures
            is_forward(self.layers@, x, r),
            r.wf(),
            r.cols == 1,
            self.layers@.len() > 0 ==> r.rows == self.layers@.last().neurons(),
            self.layers@.len() > 0 ==> forall|i: int|
                0 <= i < r.rows ==> (#[trigger] r.at(i, 0)).term() is Tanh,
    {
        let ghost x0 = x;
        let ghost mut xs: Seq<Matrix> = seq![x];
        let mut x = x;
        let mut l: usize = 0;
        while l < self.layers.len()
            invariant
                self.wf(),
                x0.wf(),
                x0.cols == 1,
                self.layers@.len() > 0 ==> x0.rows == self.layers@[0].inputs(),
                l <= self.layers@.len(),
                is_chain(self.layers@.take(l as int), xs),
                xs[0] == x0,
                xs.last() == x,
                x.wf(),
                x.cols == 1,
                l == 0 ==> x == x0,
                l > 0 ==> x.rows == self.layers@[l - 1].neurons(),
                l > 0 ==> forall|i: int|
                    0 <= i < x.rows ==> (#[trigger] x.at(i, 0)).term() is Tanh,
            decreases self.layers@.len() - l,
        {
            let ghost h = x;
            let layer = &self.layers[l];
            x = layer.forward(x);
            proof {
                let prev = xs;
                xs = xs.push(x);
                let ls = self.layers@.take(l + 1);
                assert forall|q: int| 0 <= q < ls.len() implies is_tanh_affine(
                    (#[trigger] ls[q]).weights,
                    ls[q].bias,
                    xs[q],
                    xs[q + 1],
                ) by {
                    if q < l {
                        assert(ls[q] == self.layers@.take(l as int)[q]);
                    }
                }
                assert forall|i: int| 0 <= i < x.rows implies (#[trigger] x.at(i, 0)).term() is Tanh by {
                    assert(is_tanh_affine_at(x.at(i, 0), layer.weights, layer.bias, h, i));
                }
            }
            l += 1;
        }
        assert(self.layers@.take(l as int) == self.layers@);
        assert(is_chain(self.layers@, xs));
        x
    }

    /// The trainable values of all layers, layer by layer.
    pub fn params(&self) -> (r: Vec<Value>)
        requires
            self.wf(),
        ensures
            r@ == layers_params(self.layers@),
    {
        let mut r: Vec<Value> = Vec::new();
        let mut l: usize = 0;
        while l < self.layers.len()
            invariant
                self.wf(),
                l <= self.layers@.len(),
                r@ == layers_params(self.layers@.take(l as int)),
            decreases self.layers@.len() - l,
        {
            let mut p = self.layers[l].params();
            r.append(&mut p);
            assert(self.layers@.take(l + 1).drop_last() == self.layers@.take(l as int));
            l += 1;
        }
        assert(self.layers@.take(l as int) == self.layers@);
        r
    }

    /// Replaces every trainable value, in the order of `params`.
    pub fn set_params(&mut self, vals: &Vec<Value>)
        requires
            old(self).wf(),
            vals@.len() == layers_count(old(self).layers@),
        ensures
            final(self).wf(),
            final(self).layers@.len() == old(self).layers@.len(),
            forall|l: int|
                0 <= l < old(self).layers@.len() ==> (#[trigger] final(self).layers@[l]).inputs()
                    == old(self).layers@[l].inputs() && final(self).layers@[l].neurons()
                    == old(self).layers@[l].neurons(),
            layers_params(final(self).layers@) == vals@,
    {
        let total: usize = vals.len();
        let mut layers: Vec<TanhLayer> = Vec::new();
        let mut off: usize = 0;
        let mut l: usize = 0;
        while l < self.layers.len()
            invariant
                self.wf(),
                total == vals@.len(),
                vals@.len() == layers_count(self.layers@),
                l <= self.layers@.len(),
                layers@.len() == l,
                off == layers_count(self.layers@.take(l as int)),
                forall|q: int|
                    0 <= q < l ==> {
                        &&& (#[trigger] layers@[q]).wf()
                        &&& layers@[q].inputs() == self.layers@[q].inputs()
                        &&& layers@[q].neurons() == self.layers@[q].neurons()
                        &&& layers@[q].param_count() == self.layers@[q].param_count()
                    },
                layers_params(layers@) == vals@.subrange(0, off as int),
            decreases self.layers@.len() - l,
        {
            proof {
                assert(self.layers@.take(l + 1).drop_last() == self.layers@.take(l as int));
                lemma_layers_count_prefix(self.layers@, l + 1);
            }
            let old_layer = &self.layers[l];
            let mut layer = TanhLayer { weights: old_layer.weights.c(), bias: old_layer.bias.c() };
            let n = old_layer.weights.rows * old_layer.weights.cols + old_layer.bias.rows;
            let chunk = slice_of(vals, off, n);
            layer.set_params(&chunk);
            let ghost before = layers@;
            layers.push(layer);
            proof {
                assert(layers@.drop_last() == before);
                assert(vals@.subrange(0, off as int) + vals@.subrange(off as int, off + n)
                    =~= vals@.subrange(0, off + n));
            }
            off = off + n;
            l += 1;
        }
        proof {
            assert(self.layers@.take(l as int) == self.layers@);
            assert(vals@.subrange(0, off as int) =~= vals@);
        }
        self.layers = layers;
    }
}

} // verus!
