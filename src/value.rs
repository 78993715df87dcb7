//! Scalar expression nodes. A `Value` is a shared handle on an immutable node;
//! every arithmetic operation builds a new node whose children are the operands.
use std::rc::Rc;
use vstd::prelude::*;

verus! {

/// One node of the expression graph.
pub enum Node {
    /// A number, held as the bit pattern of an IEEE-754 binary64 value.
    Num(u64),
    Add(Value, Value),
    Sub(Value, Value),
    Mul(Value, Value),
    Neg(Value),
    Tanh(Value),
    /// The reciprocal `1 / x`.
    Recip(Value),
}

/// A handle on a node of the expression graph; clones share the node.
pub struct Value {
    pub node: Rc<Node>,
}

impl Value {
    /// The node this handle points at.
    pub open spec fn term(self) -> Node {
        *self.node
    }

    pub fn num(bits: u64) -> (r: Value)
        ensures
            r.term() == Node::Num(bits),
    {
        Value { node: Rc::new(Node::Num(bits)) }
    }

    /// The number zero (the bit pattern of +0.0 is all zeros).
    pub fn zero() -> (r: Value)
        ensures
            r.term() == Node::Num(0),
    {
        Value::num(0)
    }

    /// Another handle on the same node.
    pub fn c(&self) -> (r: Value)
        ensures
            r == *self,
    {
        Value { node: Rc::clone(&self.node) }
    }

    pub fn plus(self, o: Value) -> (r: Value)
        ensures
            r.term() == Node::Add(self, o),
    {
        Value { node: Rc::new(Node::Add(self, o)) }
    }

    pub fn minus(self, o: Value) -> (r: Value)
        ensures
            r.term() == Node::Sub(self, o),
    {
        Value { node: Rc::new(Node::Sub(self, o)) }
    }

    pub fn times(self, o: Value) -> (r: Value)
        ensures
            r.term() == Node::Mul(self, o),
    {
        Value { node: Rc::new(Node::Mul(self, o)) }
    }

    pub fn negate(self) -> (r: Value)
        ensures
            r.term() == Node::Neg(self),
    {
        Value { node: Rc::new(Node::Neg(self)) }
    }

    pub fn tanh(self) -> (r: Value)
        ensures
            r.term() == Node::Tanh(self),
    {
        Value { node: Rc::new(Node::Tanh(self)) }
    }

    pub fn recip(self) -> (r: Value)
        ensures
            r.term() == Node::Recip(self),
    {
        Value { node: Rc::new(Node::Recip(self)) }
    }
}

impl Clone for Value {
    fn clone(&self) -> (r: Value)
        ensures
            r == *self,
    {
        self.c()
    }
}

} // verus!
