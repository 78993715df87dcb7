//! Liquid time-constant network: a fully connected recurrent network whose
//! neuron activations follow an ODE, advanced by explicit Euler steps.
use crate::value::{Node, Value};
use vstd::arithmetic::div_mod::lemma_fundamental_div_mod_converse;
use vstd::prelude::*;

verus! {

/// A neuron: its activation and its time constant.
#[derive(Clone)]
pub struct Neuron {
    pub val: Value,
    pub time_constant: Value,
}

/// A directed connection `from → to` with a weight and a saturation parameter `a`.
#[derive(Clone)]
pub struct Synapse {
    pub weight: Value,
    pub a: Value,
    pub from: usize,
    pub to: usize,
}

/// The network. The neurons are indexed from 0; the output is the activations
/// of the first `output_size` neurons.
#[derive(Clone)]
pub struct LTC {
    pub sensory_in: Vec<Value>,
    pub neurons: Vec<Neuron>,
    pub synapses: Vec<Synapse>,
    pub output_size: usize,
    pub input_synapses: Vec<Synapse>,
}

/// `p` is `weight · tanh(acts[from]) · (a − acts[to])` for synapse `s`.
pub open spec fn is_recurrent_term(p: Value, s: Synapse, acts: Seq<Value>) -> bool {
    match p.term() {
        Node::Mul(q, r) => {
            &&& q.term() matches Node::Mul(w, th) && w == s.weight && th.term() == Node::Tanh(
                acts[s.from as int],
            )
            &&& r.term() == Node::Sub(s.a, acts[s.to as int])
        },
        _ => false,
    }
}

/// `p` is `tanh(inputs[from]) · (a − acts[to])` for input synapse `s`.
pub open spec fn is_input_term(p: Value, s: Synapse, inputs: Seq<Value>, acts: Seq<Value>) -> bool {
    match p.term() {
        Node::Mul(th, r) => {
            &&& th.term() == Node::Tanh(inputs[s.from as int])
            &&& r.term() == Node::Sub(s.a, acts[s.to as int])
        },
        _ => false,
    }
}

/// `v` accumulates, from zero and in list order, the recurrent terms of the
/// first `k` synapses that end at neuron `t`.
pub open spec fn is_recurrent_sum(
    v: Value,
    syns: Seq<Synapse>,
    acts: Seq<Value>,
    t: int,
    k: nat,
) -> bool
    decreases k,
{
    if k == 0 {
        v.term() == Node::Num(0)
    } else if syns[k - 1].to == t {
        match v.term() {
            Node::Add(s, p) => is_recurrent_sum(s, syns, acts, t, (k - 1) as nat)
                && is_recurrent_term(p, syns[k - 1], acts),
            _ => false,
        }
    } else {
        is_recurrent_sum(v, syns, acts, t, (k - 1) as nat)
    }
}

/// `v` continues the recurrent sum of neuron `t` with the input terms of the
/// first `k` input synapses that end at `t`.
pub open spec fn is_input_sum(
    v: Value,
    syns: Seq<Synapse>,
    in_syns: Seq<Synapse>,
    inputs: Seq<Value>,
    acts: Seq<Value>,
    t: int,
    k: nat,
) -> bool
    decreases k,
{
    if k == 0 {
        is_recurrent_sum(v, syns, acts, t, syns.len())
    } else if in_syns[k - 1].to == t {
        match v.term() {
            Node::Add(s, p) => is_input_sum(s, syns, in_syns, inputs, acts, t, (k - 1) as nat)
                && is_input_term(p, in_syns[k - 1], inputs, acts),
            _ => false,
        }
    } else {
        is_input_sum(v, syns, in_syns, inputs, acts, t, (k - 1) as nat)
    }
}

/// Synapse `k` of a full `outer × inner` block joins outer index `k / inner`
/// and inner index `k % inner`, and takes its weight and `a` from
/// `draws[offset + k]`.
pub open spec fn is_block(
    syns: Seq<Synapse>,
    outer: nat,
    inner: nat,
    draws: Seq<(Value, Value)>,
    offset: int,
    outer_is_source: bool,
) -> bool {
    &&& syns.len() == outer * inner
    &&& forall|k: int|
        0 <= k < syns.len() ==> {
            &&& (#[trigger] syns[k]).weight == draws[offset + k].0
            &&& syns[k].a == draws[offset + k].1
            &&& outer_is_source ==> syns[k].from == k / (inner as int) && syns[k].to == k % (
            inner as int)
            &&& !outer_is_source ==> syns[k].to == k / (inner as int) && syns[k].from == k % (
            inner as int)
        }
}

/// An index `k < outer * inner` splits into `k / inner < outer` and `k % inner < inner`.
proof fn lemma_block_bounds(k: int, outer: int, inner: int)
    requires
        0 <= outer,
        0 <= inner,
        0 <= k < outer * inner,
    ensures
        k / inner < outer,
        k % inner < inner,
{
    assert(inner > 0) by (nonlinear_arith)
        requires
            0 <= outer,
            0 <= inner,
            0 <= k < outer * inner,
    ;
    assert(k / inner < outer) by (nonlinear_arith)
        requires
            0 <= k < outer * inner,
            inner > 0,
    ;
}

/// One synapse for each pair (outer index, inner index), outer index major.
fn fully_connected(
    outer: usize,
    inner: usize,
    draws: &Vec<(Value, Value)>,
    offset: usize,
    outer_is_source: bool,
) -> (r: Vec<Synapse>)
    requires
        offset + outer * inner <= draws@.len(),
    ensures
        is_block(r@, outer as nat, inner as nat, draws@, offset as int, outer_is_source),
{
    let n: usize = draws.len();
    let mut r: Vec<Synapse> = Vec::new();
    let mut k: usize = 0;
    let mut i: usize = 0;
    while i < outer
        invariant
            offset + outer * inner <= draws@.len(),
            n == draws@.len(),
            i <= outer,
            k == i * inner,
            r@.len() == k,
            forall|q: int|
                0 <= q < k ==> {
                    &&& (#[trigger] r@[q]).weight == draws@[offset + q].0
                    &&& r@[q].a == draws@[offset + q].1
                    &&& outer_is_source ==> r@[q].from == q / (inner as int) && r@[q].to == q % (
                    inner as int)
                    &&& !outer_is_source ==> r@[q].to == q / (inner as int) && r@[q].from == q % (
                    inner as int)
                },
        decreases outer - i,
    {
        assert((i + 1) * inner <= outer * inner) by (nonlinear_arith)
            requires
                i < outer,
        ;
        assert((i + 1) * inner == i * inner + inner) by (nonlinear_arith);
        let mut j: usize = 0;
        while j < inner
            invariant
                offset + outer * inner <= draws@.len(),
                n == draws@.len(),
                i < outer,
                j <= inner,
                k == i * inner + j,
                k + (inner - j) <= outer * inner,
                r@.len() == k,
                forall|q: int|
                    0 <= q < k ==> {
                        &&& (#[trigger] r@[q]).weight == draws@[offset + q].0
                        &&& r@[q].a == draws@[offset + q].1
                        &&& outer_is_source ==> r@[q].from == q / (inner as int) && r@[q].to == q
                            % (inner as int)
                        &&& !outer_is_source ==> r@[q].to == q / (inner as int) && r@[q].from == q
                            % (inner as int)
                    },
            decreases inner - j,
        {
            proof {
                lemma_fundamental_div_mod_converse(k as int, inner as int, i as int, j as int);
            }
            let d = &draws[offset + k];
            let (from, to) = if outer_is_source {
                (i, j)
            } else {
                (j, i)
            };
            r.push(Synapse { weight: d.0.c(), a: d.1.c(), from, to });
            k += 1;
            j += 1;
        }
        i += 1;
    }
    r
}

/// The trainable values of the synapses `syns`: `a`, then the weight, for
/// each synapse in order.
pub open spec fn synapse_params(syns: Seq<Synapse>) -> Seq<Value>
    decreases syns.len(),
{
    if syns.len() == 0 {
        Seq::empty()
    } else {
        synapse_params(syns.drop_last()) + seq![syns.last().a, syns.last().weight]
    }
}

/// Appends the trainable values of `syns` to `r`.
fn push_synapse_params(r: &mut Vec<Value>, syns: &Vec<Synapse>)
    ensures
        final(r)@ == old(r)@ + synapse_params(syns@),
{
    let ghost start = r@;
    let mut k: usize = 0;
    while k < syns.len()
        invariant
            k <= syns@.len(),
            r@ == start + synapse_params(syns@.take(k as int)),
        decreases syns@.len() - k,
    {
        r.push(syns[k].a.c());
        r.push(syns[k].weight.c());
        assert(syns@.take(k + 1).drop_last() == syns@.take(k as int));
        k += 1;
    }
    assert(syns@.take(k as int) == syns@);
}

/// `syns` with their trainable values taken from `vals[off ..]`; the
/// connections are kept.
fn with_synapse_params(syns: &Vec<Synapse>, vals: &Vec<Value>, off: usize) -> (r: Vec<Synapse>)
    requires
        off + 2 * syns@.len() <= vals@.len(),
    ensures
        r@.len() == syns@.len(),
        forall|k: int|
            0 <= k < syns@.len() ==> (#[trigger] r@[k]).from == syns@[k].from && r@[k].to
                == syns@[k].to,
        synapse_params(r@) == vals@.subrange(off as int, off + 2 * syns@.len()),
{
    let n: usize = vals.len();
    let mut r: Vec<Synapse> = Vec::new();
    let mut k: usize = 0;
    while k < syns.len()
        invariant
            off + 2 * syns@.len() <= vals@.len(),
            n == vals@.len(),
            k <= syns@.len(),
            r@.len() == k,
            forall|q: int|
                0 <= q < k ==> (#[trigger] r@[q]).from == syns@[q].from && r@[q].to
                    == syns@[q].to,
            synapse_params(r@) == vals@.subrange(off as int, off + 2 * k),
        decreases syns@.len() - k,
    {
        let s = &syns[k];
        let i = off + 2 * k;
        let ghost before = r@;
        r.push(Synapse { weight: vals[i + 1].c(), a: vals[i].c(), from: s.from, to: s.to });
        assert(r@.drop_last() == before);
        assert(vals@.subrange(off as int, off + 2 * (k + 1)) =~= vals@.subrange(
            off as int,
            off + 2 * k,
        ) + seq![vals@[i as int], vals@[i + 1]]);
        k += 1;
    }
    r
}

/// `states` is a run of Euler steps: state `k + 1` is state `k` after a
/// step of length `steps[k]`.
pub open spec fn is_run(states: Seq<LTC>, steps: Seq<Value>) -> bool {
    &&& states.len() == steps.len() + 1
    &&& forall|k: int| 0 <= k < steps.len() ==> (#[trigger] states[k]).steps_to(states[k + 1], steps[k])
}

impl LTC {
    /// The activations of all neurons, in index order.
    pub open spec fn activations(self) -> Seq<Value> {
        self.neurons@.map_values(|nr: Neuron| nr.val)
    }

    /// Every synapse connects existing neurons and inputs; the output is no
    /// wider than the network.
    pub open spec fn wf(self) -> bool {
        &&& self.output_size <= self.neurons@.len()
        &&& forall|k: int|
            0 <= k < self.synapses@.len() ==> (#[trigger] self.synapses@[k]).from
                < self.neurons@.len() && self.synapses@[k].to < self.neurons@.len()
        &&& forall|k: int|
            0 <= k < self.input_synapses@.len() ==> (#[trigger] self.input_synapses@[k]).from
                < self.sensory_in@.len() && self.input_synapses@[k].to < self.neurons@.len()
    }

    /// `v` is the whole net input of neuron `t`: its recurrent terms, then its
    /// input terms, all over the activations of this state.
    pub open spec fn is_net_input(self, v: Value, t: int) -> bool {
        is_input_sum(
            v,
            self.synapses@,
            self.input_synapses@,
            self.sensory_in@,
            self.activations(),
            t,
            self.input_synapses@.len(),
        )
    }

    /// `nv` is `v + (−v · 1/tc + net) · step`, where `v` and `tc` are the
    /// activation and time constant of neuron `t` and `net` is its net input:
    /// one explicit Euler step of `dv/dt = −v / tc + net`.
    pub open spec fn is_euler_update(self, nv: Value, t: int, step: Value) -> bool {
        let v = self.neurons@[t].val;
        let tc = self.neurons@[t].time_constant;
        nv.term() matches Node::Add(v0, m) && v0 == v && (m.term() matches Node::Mul(d, st)
            && st == step && (d.term() matches Node::Add(q, net) && self.is_net_input(net, t) && (
        q.term() matches Node::Mul(nv2, r) && nv2.term() == Node::Neg(v) && r.term()
            == Node::Recip(tc))))
    }

    /// `next` is this state after one synchronous Euler step of length `step`:
    /// every neuron is updated from the activations before the step.
    pub open spec fn steps_to(self, next: LTC, step: Value) -> bool {
        &&& next.sensory_in == self.sensory_in
        &&& next.synapses == self.synapses
        &&& next.input_synapses == self.input_synapses
        &&& next.output_size == self.output_size
        &&& next.neurons@.len() == self.neurons@.len()
        &&& forall|t: int|
            0 <= t < self.neurons@.len() ==> (#[trigger] next.neurons@[t]).time_constant
                == self.neurons@[t].time_constant && self.is_euler_update(
                next.neurons@[t].val,
                t,
                step,
            )
    }

    /// One explicit Euler step of length `step`. The net input of every neuron
    /// is computed from the activations before the step, then all neurons are
    /// updated together.
    pub fn perform_euler_step(&mut self, step: Value)
        requires
            old(self).wf(),
        ensures
            final(self).wf(),
            old(self).steps_to(*final(self), step),
    {
        let ghost before = *self;
        let n: usize = self.neurons.len();
        let mut net: Vec<Value> = Vec::new();
        let mut t: usize = 0;
        while t < n
            invariant
                t <= n,
                net@.len() == t,
                forall|u: int| 0 <= u < t ==> (#[trigger] net@[u]).term() == Node::Num(0),
            decreases n - t,
        {
            net.push(Value::zero());
            t += 1;
        }
        let mut k: usize = 0;
        while k < self.synapses.len()
            invariant
                self.wf(),
                n == self.neurons@.len(),
                net@.len() == n,
                k <= self.synapses@.len(),
                forall|u: int|
                    0 <= u < n ==> is_recurrent_sum(
                        #[trigger] net@[u],
                        self.synapses@,
                        self.activations(),
                        u,
                        k as nat,
                    ),
            decreases self.synapses@.len() - k,
        {
            let s = &self.synapses[k];
            let src = self.neurons[s.from].val.c().tanh();
            let gap = s.a.c().minus(self.neurons[s.to].val.c());
            let term = s.weight.c().times(src).times(gap);
            let to = s.to;
            let cur = net[to].c();
            net[to] = cur.plus(term);
            k += 1;
        }
        let mut k: usize = 0;
        while k < self.input_synapses.len()
            invariant
                self.wf(),
                n == self.neurons@.len(),
                net@.len() == n,
                k <= self.input_synapses@.len(),
                forall|u: int|
                    0 <= u < n ==> is_input_sum(
                        #[trigger] net@[u],
                        self.synapses@,
                        self.input_synapses@,
                        self.sensory_in@,
                        self.activations(),
                        u,
                        k as nat,
                    ),
            decreases self.input_synapses@.len() - k,
        {
            let s = &self.input_synapses[k];
            let src = self.sensory_in[s.from].c().tanh();
            let gap = s.a.c().minus(self.neurons[s.to].val.c());
            let term = src.times(gap);
            let to = s.to;
            let cur = net[to].c();
            net[to] = cur.plus(term);
            k += 1;
        }
        let mut next: Vec<Neuron> = Vec::new();
        let mut t: usize = 0;
        while t < n
            invariant
                self.wf(),
                *self == before,
                n == self.neurons@.len(),
                net@.len() == n,
                t <= n,
                next@.len() == t,
                forall|u: int| 0 <= u < n ==> self.is_net_input(#[trigger] net@[u], u),
                forall|u: int|
                    0 <= u < t ==> (#[trigger] next@[u]).time_constant
                        == self.neurons@[u].time_constant && self.is_euler_update(
                        next@[u].val,
                        u,
                        step,
                    ),
            decreases n - t,
        {
            let nr = &self.neurons[t];
            let decay = nr.val.c().negate().times(nr.time_constant.c().recip());
            let deriv = decay.plus(net[t].c());
            let nv = nr.val.c().plus(deriv.times(step.c()));
            next.push(Neuron { val: nv, time_constant: nr.time_constant.c() });
            t += 1;
        }
        self.neurons = next;
    }

    /// A fully connected network: `neuron_cnt` neurons, one synapse for every
    /// ordered pair of neurons (self-pairs included) and one for every pair
    /// (input, neuron), with all sensory inputs zero. Neuron `i` takes its
    /// activation and time constant from `neuron_draws[i]`; the recurrent
    /// synapses take their weight and `a` from the head of `synapse_draws`,
    /// the input synapses from the rest. The caller draws them: activations
    /// from [0, 2), time constants from [0, 1), weights from [0, 5) and `a`
    /// from [1, 6).
    pub fn random(
        input_size: usize,
        output_size: usize,
        neuron_cnt: usize,
        neuron_draws: &Vec<(Value, Value)>,
        synapse_draws: &Vec<(Value, Value)>,
    ) -> (r: LTC)
        requires
            output_size <= neuron_cnt,
            neuron_draws@.len() == neuron_cnt,
            synapse_draws@.len() == neuron_cnt * neuron_cnt + neuron_cnt * input_size,
        ensures
            r.wf(),
            r.output_size == output_size,
            r.sensory_in@.len() == input_size,
            forall|j: int| 0 <= j < input_size ==> (#[trigger] r.sensory_in@[j]).term() == Node::Num(0),
            r.neurons@.len() == neuron_cnt,
            forall|i: int|
                0 <= i < neuron_cnt ==> (#[trigger] r.neurons@[i]).val == neuron_draws@[i].0
                    && r.neurons@[i].time_constant == neuron_draws@[i].1,
            is_block(r.synapses@, neuron_cnt as nat, neuron_cnt as nat, synapse_draws@, 0, true),
            is_block(
                r.input_synapses@,
                neuron_cnt as nat,
                input_size as nat,
                synapse_draws@,
                neuron_cnt * neuron_cnt,
                false,
            ),
    {
        let mut sensory_in: Vec<Value> = Vec::new();
        let mut j: usize = 0;
        while j < input_size
            invariant
                j <= input_size,
                sensory_in@.len() == j,
                forall|q: int| 0 <= q < j ==> (#[trigger] sensory_in@[q]).term() == Node::Num(0),
            decreases input_size - j,
        {
            sensory_in.push(Value::zero());
            j += 1;
        }
        let mut neurons: Vec<Neuron> = Vec::new();
        let mut i: usize = 0;
        while i < neuron_cnt
            invariant
                i <= neuron_cnt,
                neuron_draws@.len() == neuron_cnt,
                neurons@.len() == i,
                forall|q: int|
                    0 <= q < i ==> (#[trigger] neurons@[q]).val == neuron_draws@[q].0
                        && neurons@[q].time_constant == neuron_draws@[q].1,
            decreases neuron_cnt - i,
        {
            let d = &neuron_draws[i];
            neurons.push(Neuron { val: d.0.c(), time_constant: d.1.c() });
            i += 1;
        }
        assert(neuron_cnt * neuron_cnt <= synapse_draws@.len()) by (nonlinear_arith)
            requires
                synapse_draws@.len() == neuron_cnt * neuron_cnt + neuron_cnt * input_size,
                neuron_cnt * input_size >= 0,
        ;
        assert(neuron_cnt * input_size >= 0) by (nonlinear_arith);
        let synapses = fully_connected(neuron_cnt, neuron_cnt, synapse_draws, 0, true);
        let total: usize = synapse_draws.len();
        assert(neuron_cnt * neuron_cnt <= total);
        let head = neuron_cnt * neuron_cnt;
        let input_synapses = fully_connected(neuron_cnt, input_size, synapse_draws, head, false);
        let r = LTC { sensory_in, neurons, synapses, output_size, input_synapses };
        assert forall|k: int| 0 <= k < r.synapses@.len() implies (#[trigger] r.synapses@[k]).from
            < r.neurons@.len() && r.synapses@[k].to < r.neurons@.len() by {
            lemma_block_bounds(k, neuron_cnt as int, neuron_cnt as int);
        }
        assert forall|k: int| 0 <= k < r.input_synapses@.len() implies (
        #[trigger] r.input_synapses@[k]).from < r.sensory_in@.len()
            && r.input_synapses@[k].to < r.neurons@.len() by {
            lemma_block_bounds(k, neuron_cnt as int, input_size as int);
        }
        r
    }

    /// Replaces the sensory inputs; there must be one value per input.
    pub fn set_inputs(&mut self, inputs: Vec<Value>)
        requires
            old(self).wf(),
            inputs@.len() == old(self).sensory_in@.len(),
        ensures
            final(self).wf(),
            final(self).sensory_in == inputs,
            final(self).neurons == old(self).neurons,
            final(self).synapses == old(self).synapses,
            final(self).input_synapses == old(self).input_synapses,
            final(self).output_size == old(self).output_size,
    {
        self.sensory_in = inputs;
    }

    /// The activations of the first `output_size` neurons, in index order.
    pub fn output(&self) -> (r: Vec<Value>)
        requires
            self.wf(),
        ensures
            r@.len() == self.output_size,
            r@ == self.activations().subrange(0, self.output_size as int),
    {
        let mut r: Vec<Value> = Vec::new();
        let mut i: usize = 0;
        while i < self.output_size
            invariant
                self.wf(),
                i <= self.output_size,
                r@ == self.activations().subrange(0, i as int),
            decreases self.output_size - i,
        {
            r.push(self.neurons[i].val.c());
            i += 1;
        }
        r
    }

    /// The trainable values: every time constant in neuron order, then `a`
    /// and the weight of every recurrent synapse, then those of every input
    /// synapse.
    pub open spec fn param_seq(self) -> Seq<Value> {
        self.neurons@.map_values(|nr: Neuron| nr.time_constant) + synapse_params(self.synapses@)
            + synapse_params(self.input_synapses@)
    }

    /// The number of trainable values.
    pub open spec fn param_count(self) -> nat {
        self.neurons@.len() + 2 * self.synapses@.len() + 2 * self.input_synapses@.len()
    }

    pub fn params(&self) -> (r: Vec<Value>)
        ensures
            r@ == self.param_seq(),
    {
        let mut r: Vec<Value> = Vec::new();
        let mut i: usize = 0;
        while i < self.neurons.len()
            invariant
                i <= self.neurons@.len(),
                r@ == self.neurons@.take(i as int).map_values(|nr: Neuron| nr.time_constant),
            decreases self.neurons@.len() - i,
        {
            r.push(self.neurons[i].time_constant.c());
            assert(self.neurons@.take(i + 1).map_values(|nr: Neuron| nr.time_constant)
                =~= self.neurons@.take(i as int).map_values(|nr: Neuron| nr.time_constant).push(
                self.neurons@[i as int].time_constant,
            ));
            i += 1;
        }
        assert(self.neurons@.take(i as int) == self.neurons@);
        push_synapse_params(&mut r, &self.synapses);
        push_synapse_params(&mut r, &self.input_synapses);
        r
    }

    /// Replaces every trainable value, in the order of `params`. Activations,
    /// inputs and connections are kept.
    pub fn set_params(&mut self, vals: &Vec<Value>)
        requires
            old(self).wf(),
            vals@.len() == old(self).param_count(),
        ensures
            final(self).wf(),
            final(self).activations() == old(self).activations(),
            final(self).sensory_in == old(self).sensory_in,
            final(self).output_size == old(self).output_size,
            final(self).synapses@.len() == old(self).synapses@.len(),
            final(self).input_synapses@.len() == old(self).input_synapses@.len(),
            final(self).param_seq() == vals@,
    {
        let total: usize = vals.len();
        let n = self.neurons.len();
        let mut neurons: Vec<Neuron> = Vec::new();
        let mut i: usize = 0;
        while i < n
            invariant
                n == self.neurons@.len(),
                vals@.len() == self.param_count(),
                i <= n,
                neurons@.len() == i,
                forall|q: int|
                    0 <= q < i ==> (#[trigger] neurons@[q]).val == self.neurons@[q].val
                        && neurons@[q].time_constant == vals@[q],
            decreases n - i,
        {
            neurons.push(Neuron { val: self.neurons[i].val.c(), time_constant: vals[i].c() });
            i += 1;
        }
        let ns = self.synapses.len();
        let synapses = with_synapse_params(&self.synapses, vals, n);
        let input_synapses = with_synapse_params(&self.input_synapses, vals, n + 2 * ns);
        let ghost before = *self;
        self.neurons = neurons;
        self.synapses = synapses;
        self.input_synapses = input_synapses;
        proof {
            assert(self.activations() =~= before.activations());
            let tcs = self.neurons@.map_values(|nr: Neuron| nr.time_constant);
            assert(tcs =~= vals@.subrange(0, n as int));
            let m = n + 2 * ns;
            assert(vals@.subrange(0, n as int) + vals@.subrange(n as int, m) + vals@.subrange(
                m,
                total as int,
            ) =~= vals@);
        }
    }

    /// Takes the Euler steps of lengths `steps`, in order. Splitting a duration
    /// into steps of at most a given length is left to the caller, which keeps
    /// the clock.
    pub fn ode_solve_euler(&mut self, steps: &Vec<Value>)
        requires
            old(self).wf(),
        ensures
            final(self).wf(),
            exists|states: Seq<LTC>|
                #[trigger] is_run(states, steps@) && states[0] == *old(self) && states.last()
                    == *final(self),
    {
        let ghost mut states: Seq<LTC> = seq![*self];
        let mut k: usize = 0;
        while k < steps.len()
            invariant
                self.wf(),
                k <= steps@.len(),
                is_run(states, steps@.take(k as int)),
                states[0] == *old(self),
                states.last() == *self,
            decreases steps@.len() - k,
        {
            let ghost prev = *self;
            self.perform_euler_step(steps[k].c());
            proof {
                let before = states;
                states = states.push(*self);
                assert forall|q: int| 0 <= q < k + 1 implies (#[trigger] states[q]).steps_to(
                    states[q + 1],
                    steps@.take(k + 1)[q],
                ) by {
                    if q < k {
                        assert(states[q] == before[q] && states[q + 1] == before[q + 1]);
                        assert(steps@.take(k + 1)[q] == steps@.take(k as int)[q]);
                    }
                }
            }
            k += 1;
        }
        assert(steps@.take(k as int) == steps@);
    }
}

} // verus!
