use vstd::prelude::*;

use crate::allocator::{
    bump, node_at, parents_valid, rule_effect, valid_id, Allocator, GraphModel, ValueId,
};
use crate::engine::{derived_model, Op, Value};

verus! {

/// The forward value of a derived node: what each operator computes from the
/// data of its parents `a` and `b` in `m` (`b` is ignored by the unary
/// operators).
pub open spec fn forward_data<T: Num>(m: GraphModel<T>, op: Op, a: int, b: int) -> T {
    match op {
        Op::Add => node_at(m, a).data.add_spec(node_at(m, b).data),
        Op::Mul => node_at(m, a).data.mul_spec(node_at(m, b).data),
        Op::Neg => node_at(m, a).data.mul_spec(T::one_spec().neg_spec()),
        Op::Pow => node_at(m, a).data.pow_spec(node_at(m, b).data),
        Op::Exp => node_at(m, a).data.exp_spec(),
        Op::Ln => node_at(m, a).data.ln_spec(),
        Op::Tanh => node_at(m, a).data.tanh_spec(),
        Op::Relu => if node_at(m, a).data.gt_spec(T::zero_spec()) {
            node_at(m, a).data
        } else {
            T::zero_spec()
        },
        Op::Div => node_at(m, a).data.div_spec(node_at(m, b).data),
    }
}

/// The model of `m` after one operator application: a derived node carrying
/// the operator's forward value is appended to the per-iteration pool.
pub open spec fn applied<T: Num>(m: GraphModel<T>, op: Op, a: int, b: int) -> GraphModel<T> {
    GraphModel { temp: m.temp.push(derived_model(forward_data(m, op, a, b), op, a, b)), ..m }
}

/// The scalar element type of the computation graph.
///
/// The engine is generic over this trait: it supplies the additive and
/// multiplicative identities, an order test, the four arithmetic operations
/// and the transcendental operations that the backward rules need. Every
/// executable method is specified against a spec-level counterpart, so the
/// whole engine is verified relative to those contracts.
///
/// The verified crate contains no implementation of this trait: a scalar is
/// typically an IEEE float, which carries no exact arithmetic laws worth
/// claiming. An embedding application implements `Num` for a newtype over
/// `f32` or `f64`; such an implementation is unverified, and the engine's
/// guarantees hold for it exactly insofar as each method returns the value
/// its contract names.
pub trait Num: Sized + Copy {
    /// The additive identity: a fresh gradient starts here.
    spec fn zero_spec() -> Self;

    /// The multiplicative identity: the seed of a backward pass.
    spec fn one_spec() -> Self;

    spec fn add_spec(self, other: Self) -> Self;

    spec fn sub_spec(self, other: Self) -> Self;

    spec fn mul_spec(self, other: Self) -> Self;

    spec fn div_spec(self, other: Self) -> Self;

    spec fn neg_spec(self) -> Self;

    /// `self` raised to the power `other`.
    spec fn pow_spec(self, other: Self) -> Self;

    /// The exponential function.
    spec fn exp_spec(self) -> Self;

    /// The natural logarithm.
    spec fn ln_spec(self) -> Self;

    /// The hyperbolic tangent.
    spec fn tanh_spec(self) -> Self;

    /// The strict order test `self > other`.
    spec fn gt_spec(self, other: Self) -> bool;

    fn zero() -> (r: Self)
        ensures
            r == Self::zero_spec(),
    ;

    fn one() -> (r: Self)
        ensures
            r == Self::one_spec(),
    ;

    fn add(self, other: Self) -> (r: Self)
        ensures
            r == self.add_spec(other),
    ;

    fn sub(self, other: Self) -> (r: Self)
        ensures
            r == self.sub_spec(other),
    ;

    fn mul(self, other: Self) -> (r: Self)
        ensures
            r == self.mul_spec(other),
    ;

    fn div(self, other: Self) -> (r: Self)
        ensures
            r == self.div_spec(other),
    ;

    fn neg(self) -> (r: Self)
        ensures
            r == self.neg_spec(),
    ;

    fn pow(self, other: Self) -> (r: Self)
        ensures
            r == self.pow_spec(other),
    ;

    fn exp(self) -> (r: Self)
        ensures
            r == self.exp_spec(),
    ;

    fn ln(self) -> (r: Self)
        ensures
            r == self.ln_spec(),
    ;

    fn tanh(self) -> (r: Self)
        ensures
            r == self.tanh_spec(),
    ;

    fn gt(self, other: Self) -> (r: bool)
        ensures
            r == self.gt_spec(other),
    ;
}

impl<T: Num> Allocator<T> {
    /// Backward rule of `add`: each parent receives the node's gradient
    /// unchanged.
    pub(crate) fn add_backward(&mut self, base_grad: T, p0: ValueId, p1: ValueId)
        requires
            old(self).wf(),
            valid_id(old(self)@, p0@),
            valid_id(old(self)@, p1@),
        ensures
            final(self)@ == bump(bump(old(self)@, p0@, base_grad), p1@, base_grad),
            final(self).wf(),
    {
        self.add_grad(p0, base_grad);
        self.add_grad(p1, base_grad);
    }

    /// Backward rule of `mul`: each parent receives the gradient scaled by
    /// the other parent's value.
    pub(crate) fn mul_backward(&mut self, base_grad: T, p0: ValueId, p1: ValueId)
        requires
            old(self).wf(),
            valid_id(old(self)@, p0@),
            valid_id(old(self)@, p1@),
        ensures
            final(self)@ == ({
                let a = node_at(old(self)@, p0@).data;
                let b = node_at(old(self)@, p1@).data;
                bump(bump(old(self)@, p0@, base_grad.mul_spec(b)), p1@, base_grad.mul_spec(a))
            }),
            final(self).wf(),
    {
        let a = self.get(p0).data;
        let b = self.get(p1).data;
        self.add_grad(p0, base_grad.mul(b));
        self.add_grad(p1, base_grad.mul(a));
    }

    /// Backward rule of `neg`: the parent receives the negated gradient.
    pub(crate) fn neg_backward(&mut self, base_grad: T, p0: ValueId)
        requires
            old(self).wf(),
            valid_id(old(self)@, p0@),
        ensures
            final(self)@ == bump(old(self)@, p0@, base_grad.neg_spec()),
            final(self).wf(),
    {
        self.add_grad(p0, base_grad.neg());
    }

    /// Backward rule of `pow`, with `y` the node's own forward value: the
    /// base receives `g*b*y/a`, the exponent `g*y*ln(a)`.
    pub(crate) fn pow_backward(&mut self, base_grad: T, base_val: T, p0: ValueId, p1: ValueId)
        requires
            old(self).wf(),
            valid_id(old(self)@, p0@),
            valid_id(old(self)@, p1@),
        ensures
            final(self)@ == ({
                let a = node_at(old(self)@, p0@).data;
                let b = node_at(old(self)@, p1@).data;
                bump(
                    bump(old(self)@, p0@, base_grad.mul_spec(b).mul_spec(base_val).div_spec(a)),
                    p1@,
                    base_grad.mul_spec(base_val).mul_spec(a.ln_spec()),
                )
            }),
            final(self).wf(),
    {
        let a = self.get(p0).data;
        let b = self.get(p1).data;
        self.add_grad(p0, base_grad.mul(b).mul(base_val).div(a));
        self.add_grad(p1, base_grad.mul(base_val).mul(a.ln()));
    }

    /// Backward rule of `exp`, with `y` the node's own forward value: the
    /// parent receives `g*y`.
    pub(crate) fn exp_backward(&mut self, base_grad: T, base_val: T, p0: ValueId)
        requires
            old(self).wf(),
            valid_id(old(self)@, p0@),
        ensures
            final(self)@ == bump(old(self)@, p0@, base_grad.mul_spec(base_val)),
            final(self).wf(),
    {
        self.add_grad(p0, base_grad.mul(base_val));
    }

    /// Backward rule of `ln`: the parent receives `g*1/a`.
    pub(crate) fn ln_backward(&mut self, base_grad: T, p0: ValueId)
        requires
            old(self).wf(),
            valid_id(old(self)@, p0@),
        ensures
            final(self)@ == bump(
                old(self)@,
                p0@,
                base_grad.mul_spec(T::one_spec()).div_spec(node_at(old(self)@, p0@).data),
            ),
            final(self).wf(),
    {
        let a = self.get(p0).data;
        self.add_grad(p0, base_grad.mul(T::one()).div(a));
    }

    /// Backward rule of `tanh`, with `y` the node's own forward value: the
    /// parent receives `g*(1 - y^2)`.
    pub(crate) fn tanh_backward(&mut self, base_grad: T, base_val: T, p0: ValueId)
        requires
            old(self).wf(),
            valid_id(old(self)@, p0@),
        ensures
            final(self)@ == bump(
                old(self)@,
                p0@,
                base_grad.mul_spec(
                    T::one_spec().sub_spec(
                        base_val.pow_spec(T::one_spec().add_spec(T::one_spec())),
                    ),
                ),
            ),
            final(self).wf(),
    {
        let two = T::one().add(T::one());
        self.add_grad(p0, base_grad.mul(T::one().sub(base_val.pow(two))));
    }

    /// Backward rule of `relu`, with `y` the node's own forward value: the
    /// parent receives the gradient where `y` is positive and nothing
    /// otherwise.
    pub(crate) fn relu_backward(&mut self, base_grad: T, base_val: T, p0: ValueId)
        requires
            old(self).wf(),
            valid_id(old(self)@, p0@),
        ensures
            final(self)@ == bump(
                old(self)@,
                p0@,
                base_grad.mul_spec(
                    if base_val.gt_spec(T::zero_spec()) {
                        T::one_spec()
                    } else {
                        T::zero_spec()
                    },
                ),
            ),
            final(self).wf(),
    {
        let gate = if base_val.gt(T::zero()) {
            T::one()
        } else {
            T::zero()
        };
        self.add_grad(p0, base_grad.mul(gate));
    }

    /// Backward rule of `div`, with `y` the node's own forward value: the
    /// numerator receives `g*1/b`, the denominator `g*(-y)*1/b`.
    pub(crate) fn div_backward(&mut self, base_grad: T, base_val: T, p0: ValueId, p1: ValueId)
        requires
            old(self).wf(),
            valid_id(old(self)@, p0@),
            valid_id(old(self)@, p1@),
        ensures
            final(self)@ == ({
                let b = node_at(old(self)@, p1@).data;
                bump(
                    bump(old(self)@, p0@, base_grad.mul_spec(T::one_spec()).div_spec(b)),
                    p1@,
                    base_grad.mul_spec(base_val.neg_spec()).mul_spec(T::one_spec()).div_spec(b),
                )
            }),
            final(self).wf(),
    {
        let b = self.get(p1).data;
        self.add_grad(p0, base_grad.mul(T::one()).div(b));
        self.add_grad(p1, base_grad.mul(base_val.neg()).mul(T::one()).div(b));
    }

    /// Derived-node addition: `a + b`, with the backward rule of `add`
    /// recorded.
    pub fn add(&mut self, a: ValueId, b: ValueId) -> (r: ValueId)
        requires
            old(self).wf(),
            valid_id(old(self)@, a@),
            valid_id(old(self)@, b@),
            old(self)@.temp.len() < i64::MAX as int,
        ensures
            final(self)@ == applied(old(self)@, Op::Add, a@, b@),
            r@ == -(old(self)@.temp.len() + 1),
            valid_id(final(self)@, r@),
            final(self).wf(),
    {
        let da = self.get(a).data;
        let db = self.get(b).data;
        self.alloc_temp(da.add(db), Op::Add, a, b)
    }

    /// Derived-node multiplication: `a * b`, with the backward rule of `mul`
    /// recorded.
    pub fn mul(&mut self, a: ValueId, b: ValueId) -> (r: ValueId)
        requires
            old(self).wf(),
            valid_id(old(self)@, a@),
            valid_id(old(self)@, b@),
            old(self)@.temp.len() < i64::MAX as int,
        ensures
            final(self)@ == applied(old(self)@, Op::Mul, a@, b@),
            r@ == -(old(self)@.temp.len() + 1),
            valid_id(final(self)@, r@),
            final(self).wf(),
    {
        let da = self.get(a).data;
        let db = self.get(b).data;
        self.alloc_temp(da.mul(db), Op::Mul, a, b)
    }

    /// Derived-node negation: `-a`, computed as `a * (-1)`, with the
    /// backward rule of `neg` recorded.
    pub fn neg(&mut self, a: ValueId) -> (r: ValueId)
        requires
            old(self).wf(),
            valid_id(old(self)@, a@),
            old(self)@.temp.len() < i64::MAX as int,
        ensures
            final(self)@ == applied(old(self)@, Op::Neg, a@, 0),
            r@ == -(old(self)@.temp.len() + 1),
            valid_id(final(self)@, r@),
            final(self).wf(),
    {
        let da = self.get(a).data;
        let data = da.mul(T::one().neg());
        self.alloc_temp(data, Op::Neg, a, ValueId::default())
    }

    /// Derived-node subtraction, defined as `a + (-b)`: it appends the `neg`
    /// node for `b` and then the `add` node, whose handle it returns.
    pub fn sub(&mut self, a: ValueId, b: ValueId) -> (r: ValueId)
        requires
            old(self).wf(),
            valid_id(old(self)@, a@),
            valid_id(old(self)@, b@),
            old(self)@.temp.len() + 2 <= i64::MAX as int,
        ensures
            final(self)@ == applied(
                applied(old(self)@, Op::Neg, b@, 0),
                Op::Add,
                a@,
                -(old(self)@.temp.len() + 1),
            ),
            r@ == -(old(self)@.temp.len() + 2),
            valid_id(final(self)@, r@),
            final(self).wf(),
    {
        let nb = self.neg(b);
        self.add(a, nb)
    }

    /// Derived-node power: `a` raised to `b`, with the backward rule of
    /// `pow` recorded. The rule's contribution to the exponent goes through
    /// the natural logarithm of the base, so it is only meaningful for a
    /// positive base; a non-positive base propagates whatever the scalar
    /// type's logarithm yields (for a float, a non-finite value), it is
    /// never truncated or wrapped.
    pub fn pow(&mut self, a: ValueId, b: ValueId) -> (r: ValueId)
        requires
            old(self).wf(),
            valid_id(old(self)@, a@),
            valid_id(old(self)@, b@),
            old(self)@.temp.len() < i64::MAX as int,
        ensures
            final(self)@ == applied(old(self)@, Op::Pow, a@, b@),
            r@ == -(old(self)@.temp.len() + 1),
            valid_id(final(self)@, r@),
            final(self).wf(),
    {
        let da = self.get(a).data;
        let db = self.get(b).data;
        self.alloc_temp(da.pow(db), Op::Pow, a, b)
    }

    /// Derived-node exponential: `e^a`, with the backward rule of `exp`
    /// recorded.
    pub fn exp(&mut self, a: ValueId) -> (r: ValueId)
        requires
            old(self).wf(),
            valid_id(old(self)@, a@),
            old(self)@.temp.len() < i64::MAX as int,
        ensures
            final(self)@ == applied(old(self)@, Op::Exp, a@, 0),
            r@ == -(old(self)@.temp.len() + 1),
            valid_id(final(self)@, r@),
            final(self).wf(),
    {
        let da = self.get(a).data;
        self.alloc_temp(da.exp(), Op::Exp, a, ValueId::default())
    }

    /// Derived-node natural logarithm: `ln(a)`, with the backward rule of
    /// `ln` recorded. Only meaningful for positive `a`; a non-positive
    /// argument propagates whatever the scalar type's logarithm yields.
    pub fn ln(&mut self, a: ValueId) -> (r: ValueId)
        requires
            old(self).wf(),
            valid_id(old(self)@, a@),
            old(self)@.temp.len() < i64::MAX as int,
        ensures
            final(self)@ == applied(old(self)@, Op::Ln, a@, 0),
            r@ == -(old(self)@.temp.len() + 1),
            valid_id(final(self)@, r@),
            final(self).wf(),
    {
        let da = self.get(a).data;
        self.alloc_temp(da.ln(), Op::Ln, a, ValueId::default())
    }

    /// Derived-node hyperbolic tangent: `tanh(a)`, with the backward rule of
    /// `tanh` recorded.
    pub fn tanh(&mut self, a: ValueId) -> (r: ValueId)
        requires
            old(self).wf(),
            valid_id(old(self)@, a@),
            old(self)@.temp.len() < i64::MAX as int,
        ensures
            final(self)@ == applied(old(self)@, Op::Tanh, a@, 0),
            r@ == -(old(self)@.temp.len() + 1),
            valid_id(final(self)@, r@),
            final(self).wf(),
    {
        let da = self.get(a).data;
        self.alloc_temp(da.tanh(), Op::Tanh, a, ValueId::default())
    }

    /// Derived-node rectifier: `a` where `a` is positive and the additive
    /// identity otherwise, with the backward rule of `relu` recorded.
    pub fn relu(&mut self, a: ValueId) -> (r: ValueId)
        requires
            old(self).wf(),
            valid_id(old(self)@, a@),
            old(self)@.temp.len() < i64::MAX as int,
        ensures
            final(self)@ == applied(old(self)@, Op::Relu, a@, 0),
            r@ == -(old(self)@.temp.len() + 1),
            valid_id(final(self)@, r@),
            final(self).wf(),
    {
        let da = self.get(a).data;
        let data = if da.gt(T::zero()) {
            da
        } else {
            T::zero()
        };
        self.alloc_temp(data, Op::Relu, a, ValueId::default())
    }

    /// Derived-node division: `a / b`, with the backward rule of `div`
    /// recorded.
    pub fn div(&mut self, a: ValueId, b: ValueId) -> (r: ValueId)
        requires
            old(self).wf(),
            valid_id(old(self)@, a@),
            valid_id(old(self)@, b@),
            old(self)@.temp.len() < i64::MAX as int,
        ensures
            final(self)@ == applied(old(self)@, Op::Div, a@, b@),
            r@ == -(old(self)@.temp.len() + 1),
            valid_id(final(self)@, r@),
            final(self).wf(),
    {
        let da = self.get(a).data;
        let db = self.get(b).data;
        self.alloc_temp(da.div(db), Op::Div, a, b)
    }

    /// Runs the backward rule selected by the node's operation tag,
    /// contributing into its parents' gradients; a leaf contributes nothing.
    pub(crate) fn apply_backward(&mut self, node: Value<T>)
        requires
            old(self).wf(),
            parents_valid(old(self)@, node@),
        ensures
            final(self)@ == rule_effect(old(self)@, node@),
            final(self).wf(),
    {
        match node.op {
            None => {},
            Some(Op::Add) => self.add_backward(node.grad, node.prev0, node.prev1),
            Some(Op::Mul) => self.mul_backward(node.grad, node.prev0, node.prev1),
            Some(Op::Neg) => self.neg_backward(node.grad, node.prev0),
            Some(Op::Pow) => self.pow_backward(node.grad, node.data, node.prev0, node.prev1),
            Some(Op::Exp) => self.exp_backward(node.grad, node.data, node.prev0),
            Some(Op::Ln) => self.ln_backward(node.grad, node.prev0),
            Some(Op::Tanh) => self.tanh_backward(node.grad, node.data, node.prev0),
            Some(Op::Relu) => self.relu_backward(node.grad, node.data, node.prev0),
            Some(Op::Div) => self.div_backward(node.grad, node.data, node.prev0, node.prev1),
        }
    }
}

} // verus!
