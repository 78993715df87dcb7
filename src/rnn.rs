//! Elman recurrent network. The hidden state belongs to the caller and is
//! passed in and handed back on every step.
use crate::layer::tanh_entry;
use crate::matrix::{is_dot, lemma_is_dot_unique, slice_of, Matrix};
use crate::value::{Node, Value};
use vstd::prelude::*;

verus! {

/// Weights `w_hh` (hid × hid), `w_xh` (hid × inp), `w_hy` (out × hid) and
/// the hidden bias `b_h` (hid × 1).
pub struct RNN {
    pub w_hh: Matrix,
    pub w_xh: Matrix,
    pub w_hy: Matrix,
    pub b_h: Matrix,
    pub inp_size: usize,
    pub hid_size: usize,
    pub out_size: usize,
}

impl RNN {
    pub open spec fn wf(self) -> bool {
        &&& self.w_hh.wf() && self.w_hh.rows == self.hid_size && self.w_hh.cols == self.hid_size
        &&& self.w_xh.wf() && self.w_xh.rows == self.hid_size && self.w_xh.cols == self.inp_size
        &&& self.w_hy.wf() && self.w_hy.rows == self.out_size && self.w_hy.cols == self.hid_size
        &&& self.b_h.wf() && self.b_h.rows == self.hid_size && self.b_h.cols == 1
    }

    /// `v` is `tanh((W_hh·h)(i) + (W_xh·x)(i) + b_h(i))`.
    pub open spec fn is_hidden_at(self, v: Value, h: Matrix, x: Matrix, i: int) -> bool {
        v.term() matches Node::Tanh(s) && (s.term() matches Node::Add(q, c) && c == self.b_h.at(
            i,
            0,
        ) && (q.term() matches Node::Add(p1, p2) && is_dot(
            p1,
            self.w_hh.grid(),
            h.grid(),
            i,
            0,
            self.hid_size as nat,
        ) && is_dot(p2, self.w_xh.grid(), x.grid(), i, 0, self.inp_size as nat)))
    }

    /// `(hid, out)` is one step from hidden state `h` on input `x`:
    /// `hid = tanh(W_hh·h + W_xh·x + b_h)` and `out = W_hy·hid`.
    pub open spec fn is_step(self, h: Matrix, x: Matrix, hid: Matrix, out: Matrix) -> bool {
        &&& hid.wf()
        &&& hid.rows == self.hid_size
        &&& hid.cols == 1
        &&& forall|i: int|
            0 <= i < self.hid_size ==> self.is_hidden_at(#[trigger] hid.at(i, 0), h, x, i)
        &&& out.is_product_of(self.w_hy, hid)
    }

    /// A network whose matrices hold the given draws, row by row; the caller
    /// draws them uniformly from [-1, 1).
    pub fn random(
        inp_size: usize,
        out_size: usize,
        hid_size: usize,
        hh_draws: &Vec<Value>,
        xh_draws: &Vec<Value>,
        hy_draws: &Vec<Value>,
        bh_draws: &Vec<Value>,
    ) -> (r: RNN)
        requires
            hh_draws@.len() == hid_size * hid_size,
            xh_draws@.len() == hid_size * inp_size,
            hy_draws@.len() == out_size * hid_size,
            bh_draws@.len() == hid_size,
        ensures
            r.wf(),
            r.inp_size == inp_size,
            r.hid_size == hid_size,
            r.out_size == out_size,
            r.w_hh.entries() == hh_draws@,
            r.w_xh.entries() == xh_draws@,
            r.w_hy.entries() == hy_draws@,
            r.b_h.entries() == bh_draws@,
    {
        let w_hh = Matrix::random(hid_size, hid_size, hh_draws);
        let w_xh = Matrix::random(hid_size, inp_size, xh_draws);
        let w_hy = Matrix::random(out_size, hid_size, hy_draws);
        let b_h = Matrix::random(hid_size, 1, bh_draws);
        RNN { w_hh, w_xh, w_hy, b_h, inp_size, out_size, hid_size }
    }

    /// The trainable values: the entries of `w_hh`, `w_hy`, `w_xh` and `b_h`,
    /// each row by row, in that order.
    pub open spec fn param_seq(self) -> Seq<Value> {
        self.w_hh.entries() + self.w_hy.entries() + self.w_xh.entries() + self.b_h.entries()
    }

    /// The number of trainable values.
    pub open spec fn param_count(self) -> nat {
        (self.hid_size * self.hid_size + self.out_size * self.hid_size + self.hid_size
            * self.inp_size + self.hid_size) as nat
    }

    pub fn params(&self) -> (r: Vec<Value>)
        requires
            self.wf(),
        ensures
            r@ == self.param_seq(),
    {
        let mut r = self.w_hh.entries_vec();
        let mut p = self.w_hy.entries_vec();
        r.append(&mut p);
        let mut p = self.w_xh.entries_vec();
        r.append(&mut p);
        let mut p = self.b_h.entries_vec();
        r.append(&mut p);
        r
    }

    /// Replaces every trainable value, in the order of `params`.
    pub fn set_params(&mut self, vals: &Vec<Value>)
        requires
            old(self).wf(),
            vals@.len() == old(self).param_count(),
        ensures
            final(self).wf(),
            final(self).inp_size == old(self).inp_size,
            final(self).hid_size == old(self).hid_size,
            final(self).out_size == old(self).out_size,
            final(self).param_seq() == vals@,
    {
        let total: usize = vals.len();
        let (inp, hid, out) = (self.inp_size, self.hid_size, self.out_size);
        let n_hh = hid * hid;
        let n_hy = out * hid;
        let n_xh = hid * inp;
        let hh = slice_of(vals, 0, n_hh);
        let hy = slice_of(vals, n_hh, n_hy);
        let xh = slice_of(vals, n_hh + n_hy, n_xh);
        let bh = slice_of(vals, n_hh + n_hy + n_xh, hid);
        self.w_hh = Matrix::random(hid, hid, &hh);
        self.w_hy = Matrix::random(out, hid, &hy);
        self.w_xh = Matrix::random(hid, inp, &xh);
        self.b_h = Matrix::random(hid, 1, &bh);
        let ghost (a, b, c) = (n_hh as int, n_hh + n_hy, n_hh + n_hy + n_xh);
        assert(vals@.subrange(0, a) + vals@.subrange(a, b) + vals@.subrange(b, c) + vals@.subrange(
            c,
            c + hid,
        ) =~= vals@);
    }

    /// One step: returns the next hidden state and the output, in that order.
    pub fn forward(&self, hid_prev: Matrix, inp: Matrix) -> (r: (Matrix, Matrix))
        requires
            self.wf(),
            hid_prev.wf(),
            hid_prev.rows == self.hid_size,
            hid_prev.cols == 1,
            inp.wf(),
            inp.rows == self.inp_size,
            inp.cols == 1,
        ensures
            self.is_step(hid_prev, inp, r.0, r.1),
    {
        let ghost h = hid_prev;
        let ghost x = inp;
        let a = self.w_hh.c().mul(hid_prev);
        let b = self.w_xh.c().mul(inp);
        let ghost (ga, gb) = (a, b);
        let s = a.add(b);
        let ghost gs = s;
        let t = s.add(self.b_h.c());
        let ghost gt = t;
        let hid = t.map(tanh_entry);
        assert forall|i: int| 0 <= i < self.hid_size implies self.is_hidden_at(
            #[trigger] hid.at(i, 0),
            h,
            x,
            i,
        ) by {
            assert(hid.at(i, 0).term() == Node::Tanh(gt.at(i, 0)));
            assert(gt.at(i, 0).term() == Node::Add(gs.at(i, 0), self.b_h.at(i, 0)));
            assert(gs.at(i, 0).term() == Node::Add(ga.at(i, 0), gb.at(i, 0)));
        }
        let out = self.w_hy.c().mul(hid.c());
        (hid, out)
    }
}

proof fn lemma_hidden_unique(net: RNN, v1: Value, v2: Value, h: Matrix, x: Matrix, i: int)
    requires
        net.is_hidden_at(v1, h, x, i),
        net.is_hidden_at(v2, h, x, i),
    ensures
        v1 == v2,
{
    if let (Node::Tanh(s1), Node::Tanh(s2)) = (v1.term(), v2.term()) {
        if let (Node::Add(q1, c1), Node::Add(q2, c2)) = (s1.term(), s2.term()) {
            if let (Node::Add(a1, b1), Node::Add(a2, b2)) = (q1.term(), q2.term()) {
                lemma_is_dot_unique(a1, a2, net.w_hh.grid(), h.grid(), i, 0, net.hid_size as nat);
                lemma_is_dot_unique(b1, b2, net.w_xh.grid(), x.grid(), i, 0, net.inp_size as nat);
                assert(q1.node == q2.node);
            }
            assert(s1.node == s2.node);
        }
    }
    assert(v1.node == v2.node);
}

/// A step is a function of its arguments: two steps from the same hidden state
/// on the same input give the same next hidden state and the same output.
pub proof fn lemma_forward_deterministic(
    net: RNN,
    h: Matrix,
    x: Matrix,
    hid1: Matrix,
    out1: Matrix,
    hid2: Matrix,
    out2: Matrix,
)
    requires
        net.wf(),
        net.is_step(h, x, hid1, out1),
        net.is_step(h, x, hid2, out2),
    ensures
        hid1.grid() == hid2.grid(),
        out1.grid() == out2.grid(),
{
    assert forall|i: int| 0 <= i < net.hid_size implies #[trigger] hid1.grid()[i] == hid2.grid()[i] by {
        lemma_hidden_unique(net, hid1.at(i, 0), hid2.at(i, 0), h, x, i);
        assert(hid1.grid()[i] =~= hid2.grid()[i]);
    }
    assert(hid1.grid() =~= hid2.grid());
    assert forall|i: int| 0 <= i < net.out_size implies #[trigger] out1.grid()[i] == out2.grid()[i] by {
        assert forall|j: int| 0 <= j < 1 implies #[trigger] out1.grid()[i][j] == out2.grid()[i][j] by {
            lemma_is_dot_unique(
                out1.at(i, j),
                out2.at(i, j),
                net.w_hy.grid(),
                hid1.grid(),
                i,
                j,
                net.hid_size as nat,
            );
        }
        assert(out1.grid()[i] =~= out2.grid()[i]);
    }
    assert(out1.grid() =~= out2.grid());
}

} // verus!
