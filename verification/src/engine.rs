use vstd::prelude::*;

use crate::allocator::ValueId;
use crate::operators::Num;

verus! {

/// The operation that produced a derived node.
///
/// The operator set is closed and fixed, so the backward rule of a node is
/// selected by this tag rather than by an open-ended function value; the
/// local-derivative formula of each variant is given by
/// [`crate::allocator::rule_effect`].
#[derive(Clone, Copy, PartialEq, Eq, Structural, Debug)]
pub enum Op {
    Add,
    Mul,
    Neg,
    Pow,
    Exp,
    Ln,
    Tanh,
    Relu,
    Div,
}

/// The spec-level picture of one node: its scalar, its accumulated gradient,
/// the operation that produced it (`None` for a leaf) and the ids of its
/// parents, as plain integers in the id encoding of
/// [`crate::allocator::ValueId`].
pub struct NodeModel<T> {
    pub data: T,
    pub grad: T,
    pub op: Option<Op>,
    pub p0: int,
    pub p1: int,
}

/// One vertex of the computation graph: a scalar value, its accumulated
/// gradient, and — for a derived node — the operation that produced it
/// together with the handles of its parents.
#[derive(Clone, Copy)]
pub struct Value<T: Num> {
    pub data: T,
    pub grad: T,
    pub op: Option<Op>,
    pub prev0: ValueId,
    pub prev1: ValueId,
}

impl<T: Num> View for Value<T> {
    type V = NodeModel<T>;

    open spec fn view(&self) -> NodeModel<T> {
        NodeModel {
            data: self.data,
            grad: self.grad,
            op: self.op,
            p0: self.prev0@,
            p1: self.prev1@,
        }
    }
}

/// The spec-level picture of a fresh leaf node holding `data`.
pub open spec fn leaf_model<T: Num>(data: T) -> NodeModel<T> {
    NodeModel { data, grad: T::zero_spec(), op: None, p0: 0, p1: 0 }
}

/// The spec-level picture of a fresh derived node holding `data`, produced by
/// `op` from the parents `p0` and `p1`.
pub open spec fn derived_model<T: Num>(data: T, op: Op, p0: int, p1: int) -> NodeModel<T> {
    NodeModel { data, grad: T::zero_spec(), op: Some(op), p0, p1 }
}

impl<T: Num> Value<T> {
    /// A leaf node: no parents, no backward rule, gradient at the additive
    /// identity.
    pub fn from(data: T) -> (r: Value<T>)
        ensures
            r@ == leaf_model(data),
    {
        let z = T::zero();
        Value { data, grad: z, op: None, prev0: ValueId::default(), prev1: ValueId::default() }
    }

    /// A derived node recording the operation that produced it and its
    /// parents; the gradient starts at the additive identity.
    pub fn new(data: T, op: Op, prev0: ValueId, prev1: ValueId) -> (r: Value<T>)
        ensures
            r@ == derived_model(data, op, prev0@, prev1@),
    {
        let z = T::zero();
        Value { data, grad: z, op: Some(op), prev0, prev1 }
    }

    /// Overwrites the scalar; gradient, parents and backward rule are kept.
    pub fn set_data(&mut self, data: T)
        ensures
            final(self)@ == (NodeModel { data, ..old(self)@ }),
    {
        self.data = data;
    }

    /// One gradient-descent step: `data -= lr * gradient`, and the node's own
    /// gradient is reset to the additive identity as a side effect.
    pub fn step(&mut self, lr: T)
        ensures
            final(self)@ == (NodeModel {
                data: old(self)@.data.sub_spec(lr.mul_spec(old(self)@.grad)),
                grad: T::zero_spec(),
                ..old(self)@
            }),
    {
        self.data = self.data.sub(lr.mul(self.grad));
        self.grad = T::zero();
    }

    /// Overwrites the gradient, bypassing accumulation. The backward pass
    /// seeds its root with the multiplicative identity through this, and a
    /// reset returns a node to the additive identity.
    pub fn set_grad(&mut self, grad: T)
        ensures
            final(self)@ == (NodeModel { grad, ..old(self)@ }),
    {
        self.grad = grad;
    }

    /// Accumulates `grad` into the node's gradient: contributions are summed,
    /// never overwritten, so fan-out across several consumers is handled by
    /// repeated calls.
    pub fn add_grad(&mut self, grad: T)
        ensures
            final(self)@ == (NodeModel { grad: old(self)@.grad.add_spec(grad), ..old(self)@ }),
    {
        self.grad = self.grad.add(grad);
    }
}

} // verus!
