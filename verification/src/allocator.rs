use vstd::prelude::*;

use crate::engine::{derived_model, leaf_model, NodeModel, Op, Value};
use crate::operators::Num;

verus! {

/// A stable, non-owning handle to a node of one [`Allocator`].
///
/// The encoding follows the two pools of the arena: a non-negative id `k`
/// names the permanent node at index `k`, a negative id `-k` names the
/// per-iteration (temporary) node at index `k - 1`. The view of a handle is
/// this signed id as a plain integer.
///
/// A handle carries no reference to its arena: every operation that resolves
/// one takes the owning allocator as an argument, so a handle can never be
/// resolved against a different store than the one it is presented to, and a
/// handle outliving its pool (a temporary id used after the pool was cleared)
/// is rejected by the bounds in [`valid_id`].
#[derive(Clone, Copy, PartialEq, Eq, Structural, Debug)]
pub struct ValueId {
    pub(crate) id: i64,
}

impl View for ValueId {
    type V = int;

    closed spec fn view(&self) -> int {
        self.id as int
    }
}

impl Default for ValueId {
    /// The dummy handle, used as the absent second parent of a unary
    /// operator; it is never dereferenced by a backward rule.
    fn default() -> (r: Self)
        ensures
            r@ == 0,
    {
        ValueId { id: 0 }
    }
}

/// The spec-level picture of a whole arena: the permanent pool and the
/// per-iteration pool, each a sequence of node models.
#[verifier::ext_equal]
pub struct GraphModel<T> {
    pub perm: Seq<NodeModel<T>>,
    pub temp: Seq<NodeModel<T>>,
}

/// Whether the id resolves to a node of `m` under the signed-id encoding.
pub open spec fn valid_id<T>(m: GraphModel<T>, id: int) -> bool {
    if id < 0 {
        -id - 1 < m.temp.len()
    } else {
        id < m.perm.len()
    }
}

/// The node of `m` that `id` names.
pub open spec fn node_at<T>(m: GraphModel<T>, id: int) -> NodeModel<T> {
    if id < 0 {
        m.temp[-id - 1]
    } else {
        m.perm[id]
    }
}

/// `m` with the node that `id` names replaced by `n`.
pub open spec fn set_node<T>(m: GraphModel<T>, id: int, n: NodeModel<T>) -> GraphModel<T> {
    if id < 0 {
        GraphModel { temp: m.temp.update(-id - 1, n), ..m }
    } else {
        GraphModel { perm: m.perm.update(id, n), ..m }
    }
}

/// `m` with the contribution `d` accumulated into the gradient of the node
/// that `id` names. Accumulation adds, it never overwrites: this is what
/// makes several consumers of one node sum their contributions.
pub open spec fn bump<T: Num>(m: GraphModel<T>, id: int, d: T) -> GraphModel<T> {
    set_node(m, id, NodeModel { grad: node_at(m, id).grad.add_spec(d), ..node_at(m, id) })
}

/// Whether the operator takes two parents; the remaining operators read only
/// their first parent, and their second parent id is a dummy.
pub open spec fn is_binary(op: Op) -> bool {
    op == Op::Add || op == Op::Mul || op == Op::Pow || op == Op::Div
}

/// Whether the parent ids of node `n` resolve in `m`: a leaf has no
/// constraint, a unary node needs its first parent, a binary node both.
pub open spec fn parents_valid<T: Num>(m: GraphModel<T>, n: NodeModel<T>) -> bool {
    match n.op {
        None => true,
        Some(op) => valid_id(m, n.p0) && (is_binary(op) ==> valid_id(m, n.p1)),
    }
}

/// The local-derivative rule of the node `n`, applied to `m`: the exact
/// gradient contributions each operator adds to its parents, written with
/// `g` the node's gradient, `y` its own forward value, and `a`, `b` the
/// parents' values.
///
/// | operator | contribution |
/// |---|---|
/// | add      | p0 += g; p1 += g |
/// | mul      | p0 += g*b; p1 += g*a |
/// | neg      | p0 += -g |
/// | pow      | p0 += g*b*y/a; p1 += g*y*ln(a) |
/// | exp      | p0 += g*y |
/// | ln       | p0 += g*1/a |
/// | tanh     | p0 += g*(1 - y^2) |
/// | relu     | p0 += g*(1 if y > 0 else 0) |
/// | div      | p0 += g*1/b; p1 += g*(-y)*1/b |
///
/// A leaf contributes nothing.
pub open spec fn rule_effect<T: Num>(m: GraphModel<T>, n: NodeModel<T>) -> GraphModel<T> {
    match n.op {
        None => m,
        Some(Op::Add) => bump(bump(m, n.p0, n.grad), n.p1, n.grad),
        Some(Op::Mul) => {
            let a = node_at(m, n.p0).data;
            let b = node_at(m, n.p1).data;
            bump(bump(m, n.p0, n.grad.mul_spec(b)), n.p1, n.grad.mul_spec(a))
        },
        Some(Op::Neg) => bump(m, n.p0, n.grad.neg_spec()),
        Some(Op::Pow) => {
            let a = node_at(m, n.p0).data;
            let b = node_at(m, n.p1).data;
            bump(
                bump(m, n.p0, n.grad.mul_spec(b).mul_spec(n.data).div_spec(a)),
                n.p1,
                n.grad.mul_spec(n.data).mul_spec(a.ln_spec()),
            )
        },
        Some(Op::Exp) => bump(m, n.p0, n.grad.mul_spec(n.data)),
        Some(Op::Ln) => {
            let a = node_at(m, n.p0).data;
            bump(m, n.p0, n.grad.mul_spec(T::one_spec()).div_spec(a))
        },
        Some(Op::Tanh) => bump(
            m,
            n.p0,
            n.grad.mul_spec(
                T::one_spec().sub_spec(n.data.pow_spec(T::one_spec().add_spec(T::one_spec()))),
            ),
        ),
        Some(Op::Relu) => bump(
            m,
            n.p0,
            n.grad.mul_spec(
                if n.data.gt_spec(T::zero_spec()) {
                    T::one_spec()
                } else {
                    T::zero_spec()
                },
            ),
        ),
        Some(Op::Div) => {
            let b = node_at(m, n.p1).data;
            bump(
                bump(m, n.p0, n.grad.mul_spec(T::one_spec()).div_spec(b)),
                n.p1,
                n.grad.mul_spec(n.data.neg_spec()).mul_spec(T::one_spec()).div_spec(b),
            )
        },
    }
}

/// `m` with the gradient of the most recently created temporary node — the
/// root of the backward pass — overwritten with the multiplicative identity.
pub open spec fn seeded<T: Num>(m: GraphModel<T>) -> GraphModel<T>
    recommends
        m.temp.len() > 0,
{
    let i = m.temp.len() - 1;
    GraphModel { temp: m.temp.update(i, NodeModel { grad: T::one_spec(), ..m.temp[i] }), ..m }
}

/// The backward rules of the temporary nodes `k - 1`, `k - 2`, ..., `0` of
/// `m`, applied in that order — strict reverse creation order, which is a
/// valid reverse-topological order because every node is created after its
/// parents.
pub open spec fn back_rec<T: Num>(m: GraphModel<T>, k: nat) -> GraphModel<T>
    decreases k,
{
    if k == 0 {
        m
    } else {
        back_rec(rule_effect(m, m.temp[k - 1]), (k - 1) as nat)
    }
}

/// One whole backward pass over `m`: nothing happens on an empty temporary
/// pool; otherwise the root (the last temporary node) is seeded with the
/// multiplicative identity and every temporary node's rule runs in reverse
/// creation order.
pub open spec fn backward_spec<T: Num>(m: GraphModel<T>) -> GraphModel<T> {
    if m.temp.len() == 0 {
        m
    } else {
        back_rec(seeded(m), m.temp.len())
    }
}

/// `m` with every gradient, in both pools, reset to the additive identity;
/// data, parents and backward rules are untouched.
pub open spec fn zero_all<T: Num>(m: GraphModel<T>) -> GraphModel<T> {
    GraphModel {
        perm: m.perm.map_values(|n: NodeModel<T>| NodeModel { grad: T::zero_spec(), ..n }),
        temp: m.temp.map_values(|n: NodeModel<T>| NodeModel { grad: T::zero_spec(), ..n }),
    }
}

/// The node `n` after a gradient-descent step with learning rate `lr`:
/// `data -= lr * gradient`, and the gradient is reset to the additive
/// identity.
pub open spec fn stepped_node<T: Num>(n: NodeModel<T>, lr: T) -> NodeModel<T> {
    NodeModel { data: n.data.sub_spec(lr.mul_spec(n.grad)), grad: T::zero_spec(), ..n }
}

/// Whether the parent id `p` may be recorded by the temporary node at index
/// `i`: a permanent node, or a temporary node created strictly earlier.
pub open spec fn parent_ok<T>(m: GraphModel<T>, p: int, i: int) -> bool {
    if p < 0 {
        -p - 1 < i
    } else {
        p < m.perm.len()
    }
}

/// Well-formedness of the temporary node at index `i`: its recorded parents
/// were created strictly before it.
pub open spec fn node_wf<T: Num>(m: GraphModel<T>, n: NodeModel<T>, i: int) -> bool {
    match n.op {
        None => true,
        Some(op) => parent_ok(m, n.p0, i) && (is_binary(op) ==> parent_ok(m, n.p1, i)),
    }
}

/// Well-formedness of a whole arena.
///
/// - Both pools fit the signed-id encoding.
/// - Permanent nodes are leaves: only [`Allocator::alloc`] fills that pool,
///   and operators place every derived node in the per-iteration pool.
/// - The parent relation over the temporary pool follows creation order, so
///   it forms a DAG and reverse creation order is a valid
///   reverse-topological order.
pub open spec fn graph_wf<T: Num>(m: GraphModel<T>) -> bool {
    &&& m.perm.len() <= i64::MAX as int
    &&& m.temp.len() <= i64::MAX as int
    &&& forall|j: int| 0 <= j < m.perm.len() ==> (#[trigger] m.perm[j]).op is None
    &&& forall|i: int| 0 <= i < m.temp.len() ==> node_wf(m, #[trigger] m.temp[i], i)
}

/// Whether `a` and `b` agree on everything but gradients: same pools, and
/// node for node the same data, operation and parents.
pub open spec fn same_structure<T>(a: GraphModel<T>, b: GraphModel<T>) -> bool {
    &&& a.perm.len() == b.perm.len()
    &&& a.temp.len() == b.temp.len()
    &&& forall|j: int|
        0 <= j < a.perm.len() ==> {
            &&& (#[trigger] a.perm[j]).data == b.perm[j].data
            &&& a.perm[j].op == b.perm[j].op
            &&& a.perm[j].p0 == b.perm[j].p0
            &&& a.perm[j].p1 == b.perm[j].p1
        }
    &&& forall|i: int|
        0 <= i < a.temp.len() ==> {
            &&& (#[trigger] a.temp[i]).data == b.temp[i].data
            &&& a.temp[i].op == b.temp[i].op
            &&& a.temp[i].p0 == b.temp[i].p0
            &&& a.temp[i].p1 == b.temp[i].p1
        }
}

/// Whether `m1` is `m0` grown by forward work only: the permanent pool is
/// unchanged and the old per-iteration pool is a prefix of the new one, so
/// every node of `m0` still resolves, unchanged, in `m1`.
pub open spec fn extends<T>(m1: GraphModel<T>, m0: GraphModel<T>) -> bool {
    m1.perm == m0.perm && m0.temp.is_prefix_of(m1.temp)
}

/// A node of the smaller arena resolves to the same node in the extension.
pub proof fn lemma_extends_node<T>(m0: GraphModel<T>, m1: GraphModel<T>, id: int)
    requires
        extends(m1, m0),
        valid_id(m0, id),
    ensures
        valid_id(m1, id),
        node_at(m1, id) == node_at(m0, id),
{
    if id < 0 {
        assert(m0.temp =~= m1.temp.subrange(0, m0.temp.len() as int));
        assert(m0.temp[-id - 1] == m1.temp[-id - 1]);
    }
}

/// Extension is transitive.
pub proof fn lemma_extends_trans<T>(m2: GraphModel<T>, m1: GraphModel<T>, m0: GraphModel<T>)
    requires
        extends(m2, m1),
        extends(m1, m0),
    ensures
        extends(m2, m0),
{
    assert(m0.temp =~= m2.temp.subrange(0, m0.temp.len() as int));
}

/// Accumulating a gradient contribution touches nothing but one gradient:
/// structure is kept, and with it well-formedness.
pub proof fn lemma_bump_structure<T: Num>(m: GraphModel<T>, id: int, d: T)
    requires
        valid_id(m, id),
    ensures
        same_structure(bump(m, id, d), m),
        graph_wf(m) ==> graph_wf(bump(m, id, d)),
{
    let b = bump(m, id, d);
    assert(same_structure(b, m));
    if graph_wf(m) {
        assert forall|i: int| 0 <= i < b.temp.len() implies node_wf(b, #[trigger] b.temp[i], i) by {
            assert(node_wf(m, m.temp[i], i));
        }
    }
}

/// A backward rule only accumulates into gradients: structure is kept, and
/// with it well-formedness.
pub proof fn lemma_rule_effect_structure<T: Num>(m: GraphModel<T>, n: NodeModel<T>)
    requires
        parents_valid(m, n),
    ensures
        same_structure(rule_effect(m, n), m),
        graph_wf(m) ==> graph_wf(rule_effect(m, n)),
{
    match n.op {
        None => {},
        Some(op) => {
            if is_binary(op) {
                let d0 = match op {
                    Op::Add => n.grad,
                    Op::Mul => n.grad.mul_spec(node_at(m, n.p1).data),
                    Op::Pow => n.grad.mul_spec(node_at(m, n.p1).data).mul_spec(n.data).div_spec(
                        node_at(m, n.p0).data,
                    ),
                    Op::Div => n.grad.mul_spec(T::one_spec()).div_spec(node_at(m, n.p1).data),
                    _ => n.grad,
                };
                let m1 = bump(m, n.p0, d0);
                lemma_bump_structure(m, n.p0, d0);
                let d1 = match op {
                    Op::Add => n.grad,
                    Op::Mul => n.grad.mul_spec(node_at(m, n.p0).data),
                    Op::Pow => n.grad.mul_spec(n.data).mul_spec(node_at(m, n.p0).data.ln_spec()),
                    Op::Div => n.grad.mul_spec(n.data.neg_spec()).mul_spec(T::one_spec()).div_spec(
                        node_at(m, n.p1).data,
                    ),
                    _ => n.grad,
                };
                assert(valid_id(m1, n.p1));
                lemma_bump_structure(m1, n.p1, d1);
            } else {
                let d0 = match op {
                    Op::Neg => n.grad.neg_spec(),
                    Op::Exp => n.grad.mul_spec(n.data),
                    Op::Ln => n.grad.mul_spec(T::one_spec()).div_spec(node_at(m, n.p0).data),
                    Op::Tanh => n.grad.mul_spec(
                        T::one_spec().sub_spec(
                            n.data.pow_spec(T::one_spec().add_spec(T::one_spec())),
                        ),
                    ),
                    Op::Relu => n.grad.mul_spec(
                        if n.data.gt_spec(T::zero_spec()) {
                            T::one_spec()
                        } else {
                            T::zero_spec()
                        },
                    ),
                    _ => n.grad,
                };
                lemma_bump_structure(m, n.p0, d0);
            }
        },
    }
}

/// The arena that owns every node of one computation graph.
///
/// The permanent pool holds long-lived leaves (inputs, parameters,
/// constants); the per-iteration pool holds the leaves and derived nodes of
/// one training step, and is discarded in bulk by
/// [`Allocator::clear_temps`]. Handles are indices into these pools, so the
/// pools may reallocate freely while handles stay stable.
pub struct Allocator<T: Num> {
    permanent: Vec<Value<T>>,
    temporary: Vec<Value<T>>,
}

impl<T: Num> View for Allocator<T> {
    type V = GraphModel<T>;

    closed spec fn view(&self) -> GraphModel<T> {
        GraphModel {
            perm: self.permanent@.map_values(|v: Value<T>| v@),
            temp: self.temporary@.map_values(|v: Value<T>| v@),
        }
    }
}

impl<T: Num> Allocator<T> {
    /// Well-formedness of the arena, as [`graph_wf`] of its view; every
    /// method establishes and preserves it.
    pub open spec fn wf(&self) -> bool {
        graph_wf(self@)
    }

    /// An empty arena.
    pub fn new() -> (r: Self)
        ensures
            r@.perm == Seq::<NodeModel<T>>::empty(),
            r@.temp == Seq::<NodeModel<T>>::empty(),
            r.wf(),
    {
        let r = Allocator { permanent: Vec::new(), temporary: Vec::new() };
        proof {
            assert(r@.perm =~= Seq::<NodeModel<T>>::empty());
            assert(r@.temp =~= Seq::<NodeModel<T>>::empty());
        }
        r
    }

    /// Creates a parentless node holding `data` in the permanent pool and
    /// returns its handle.
    pub fn alloc_perm(&mut self, data: T) -> (r: ValueId)
        requires
            old(self).wf(),
            old(self)@.perm.len() < i64::MAX as int,
        ensures
            final(self)@.perm == old(self)@.perm.push(leaf_model(data)),
            final(self)@.temp == old(self)@.temp,
            r@ == old(self)@.perm.len(),
            valid_id(final(self)@, r@),
            final(self).wf(),
    {
        let id = self.permanent.len();
        let v = Value::from(data);
        self.permanent.push(v);
        proof {
            assert(self@.perm =~= old(self)@.perm.push(leaf_model(data)));
            assert(self@.temp =~= old(self)@.temp);
            assert forall|i: int| 0 <= i < self@.temp.len() implies node_wf(
                self@,
                #[trigger] self@.temp[i],
                i,
            ) by {
                assert(node_wf(old(self)@, old(self)@.temp[i], i));
            }
        }
        ValueId { id: id as i64 }
    }

    /// Creates a parentless node holding `data` in the per-iteration pool
    /// and returns its handle.
    pub fn alloc_t(&mut self, data: T) -> (r: ValueId)
        requires
            old(self).wf(),
            old(self)@.temp.len() < i64::MAX as int,
        ensures
            final(self)@.temp == old(self)@.temp.push(leaf_model(data)),
            final(self)@.perm == old(self)@.perm,
            r@ == -(old(self)@.temp.len() + 1),
            valid_id(final(self)@, r@),
            final(self).wf(),
    {
        let id = self.temporary.len();
        let v = Value::from(data);
        self.temporary.push(v);
        proof {
            assert(self@.temp =~= old(self)@.temp.push(leaf_model(data)));
            assert(self@.perm =~= old(self)@.perm);
            assert forall|i: int| 0 <= i < self@.temp.len() implies node_wf(
                self@,
                #[trigger] self@.temp[i],
                i,
            ) by {
                if i < old(self)@.temp.len() {
                    assert(node_wf(old(self)@, old(self)@.temp[i], i));
                }
            }
        }
        ValueId { id: -((id as i64) + 1) }
    }

    /// Creates a derived node holding `data` in the per-iteration pool,
    /// recording the operation that produced it and the handles of its
    /// parents, and returns its handle. Parents must already exist, which
    /// keeps the parent relation a DAG in creation order.
    pub fn alloc_temp(&mut self, data: T, op: Op, prev0: ValueId, prev1: ValueId) -> (r: ValueId)
        requires
            old(self).wf(),
            old(self)@.temp.len() < i64::MAX as int,
            valid_id(old(self)@, prev0@),
            is_binary(op) ==> valid_id(old(self)@, prev1@),
        ensures
            final(self)@.temp == old(self)@.temp.push(derived_model(data, op, prev0@, prev1@)),
            final(self)@.perm == old(self)@.perm,
            r@ == -(old(self)@.temp.len() + 1),
            valid_id(final(self)@, r@),
            final(self).wf(),
    {
        let id = self.temporary.len();
        let v = Value::new(data, op, prev0, prev1);
        self.temporary.push(v);
        proof {
            assert(self@.temp =~= old(self)@.temp.push(derived_model(data, op, prev0@, prev1@)));
            assert(self@.perm =~= old(self)@.perm);
            assert forall|i: int| 0 <= i < self@.temp.len() implies node_wf(
                self@,
                #[trigger] self@.temp[i],
                i,
            ) by {
                if i < old(self)@.temp.len() {
                    assert(node_wf(old(self)@, old(self)@.temp[i], i));
                }
            }
        }
        ValueId { id: -((id as i64) + 1) }
    }

    /// Resolves a handle to a read-only view of its node.
    pub fn get(&self, id: ValueId) -> (r: &Value<T>)
        requires
            self.wf(),
            valid_id(self@, id@),
        ensures
            r@ == node_at(self@, id@),
    {
        if id.id < 0 {
            let n = self.temporary.len();
            proof {
                assert(self@.temp.len() == self.temporary@.len());
                assert(-(id.id as int) - 1 < n as int);
                assert(id.id as int <= -1);
            }
            let idx = ((-id.id) as usize) - 1;
            let r = &self.temporary[idx];
            proof {
                assert(node_at(self@, id@) == self@.temp[idx as int]);
                assert(self@.temp[idx as int] == self.temporary@[idx as int]@);
            }
            r
        } else {
            let n = self.permanent.len();
            proof {
                assert(self@.perm.len() == self.permanent@.len());
                assert((id.id as int) < (n as int));
            }
            let r = &self.permanent[id.id as usize];
            proof {
                assert(node_at(self@, id@) == self@.perm[id.id as int]);
                assert(self@.perm[id.id as int] == self.permanent@[id.id as int]@);
            }
            r
        }
    }

    /// Resolves a handle to a mutable view of its node; the arena afterwards
    /// holds, at that handle, whatever the caller left behind the returned
    /// reference, and every other node is untouched.
    pub fn get_mut(&mut self, id: ValueId) -> (r: &mut Value<T>)
        requires
            old(self).wf(),
            valid_id(old(self)@, id@),
        ensures
            (*r)@ == node_at(old(self)@, id@),
            final(self)@.perm.len() == old(self)@.perm.len(),
            final(self)@.temp.len() == old(self)@.temp.len(),
            node_at(final(self)@, id@) == (*final(r))@,
            forall|k: int|
                valid_id(old(self)@, k) && k != id@ ==> node_at(final(self)@, k) == node_at(
                    old(self)@,
                    k,
                ),
    {
        if id.id < 0 {
            let n = self.temporary.len();
            proof {
                assert(old(self)@.temp.len() == self.temporary@.len());
                assert(-(id.id as int) - 1 < n as int);
                assert(id.id as int <= -1);
            }
            let idx = ((-id.id) as usize) - 1;
            &mut self.temporary[idx]
        } else {
            let n = self.permanent.len();
            proof {
                assert(old(self)@.perm.len() == self.permanent@.len());
                assert((id.id as int) < (n as int));
            }
            let idx = id.id as usize;
            &mut self.permanent[idx]
        }
    }

    /// Accumulates `delta` into the gradient of the node `id` names; the
    /// contribution is added to whatever is there, never overwritten.
    pub fn add_grad(&mut self, id: ValueId, delta: T)
        requires
            old(self).wf(),
            valid_id(old(self)@, id@),
        ensures
            final(self)@ == bump(old(self)@, id@, delta),
            final(self).wf(),
    {
        if id.id < 0 {
            let n = self.temporary.len();
            proof {
                assert(old(self)@.temp.len() == self.temporary@.len());
                assert(-(id.id as int) - 1 < n as int);
                assert(id.id as int <= -1);
            }
            let idx = ((-id.id) as usize) - 1;
            let mut v = self.temporary[idx];
            v.add_grad(delta);
            self.temporary[idx] = v;
            proof {
                assert(self@.temp =~= bump(old(self)@, id@, delta).temp);
                assert(self@.perm =~= bump(old(self)@, id@, delta).perm);
                assert(self@ =~= bump(old(self)@, id@, delta));
            }
        } else {
            let n = self.permanent.len();
            proof {
                assert(old(self)@.perm.len() == self.permanent@.len());
                assert((id.id as int) < (n as int));
            }
            let idx = id.id as usize;
            let mut v = self.permanent[idx];
            v.add_grad(delta);
            self.permanent[idx] = v;
            proof {
                assert(self@.perm =~= bump(old(self)@, id@, delta).perm);
                assert(self@.temp =~= bump(old(self)@, id@, delta).temp);
                assert(self@ =~= bump(old(self)@, id@, delta));
            }
        }
        proof {
            lemma_bump_structure(old(self)@, id@, delta);
        }
    }

    /// One gradient-descent step on the node `id` names:
    /// `data -= lr * gradient`, and that node's gradient is reset to the
    /// additive identity.
    pub fn step(&mut self, id: ValueId, lr: T)
        requires
            old(self).wf(),
            valid_id(old(self)@, id@),
        ensures
            final(self)@ == set_node(
                old(self)@,
                id@,
                stepped_node(node_at(old(self)@, id@), lr),
            ),
            final(self).wf(),
    {
        let ghost target = set_node(old(self)@, id@, stepped_node(node_at(old(self)@, id@), lr));
        if id.id < 0 {
            let n = self.temporary.len();
            proof {
                assert(old(self)@.temp.len() == self.temporary@.len());
                assert(-(id.id as int) - 1 < n as int);
                assert(id.id as int <= -1);
            }
            let idx = ((-id.id) as usize) - 1;
            let mut v = self.temporary[idx];
            v.step(lr);
            self.temporary[idx] = v;
            proof {
                assert(self@.temp =~= target.temp);
                assert(self@.perm =~= target.perm);
                assert(self@ =~= target);
            }
        } else {
            let n = self.permanent.len();
            proof {
                assert(old(self)@.perm.len() == self.permanent@.len());
                assert((id.id as int) < (n as int));
            }
            let idx = id.id as usize;
            let mut v = self.permanent[idx];
            v.step(lr);
            self.permanent[idx] = v;
            proof {
                assert(self@.perm =~= target.perm);
                assert(self@.temp =~= target.temp);
                assert(self@ =~= target);
            }
        }
        proof {
            assert forall|i: int| 0 <= i < self@.temp.len() implies node_wf(
                self@,
                #[trigger] self@.temp[i],
                i,
            ) by {
                assert(node_wf(old(self)@, old(self)@.temp[i], i));
            }
        }
    }

    /// Resets every gradient, in both pools, to the additive identity; node
    /// structure and data are untouched.
    pub fn zero_grads(&mut self)
        requires
            old(self).wf(),
        ensures
            final(self)@ == zero_all(old(self)@),
            final(self).wf(),
    {
        let ghost target = zero_all(old(self)@);
        let np = self.permanent.len();
        let mut i: usize = 0;
        while i < np
            invariant
                i <= np,
                np as int == self@.perm.len(),
                self@.perm.len() == old(self)@.perm.len(),
                self@.temp == old(self)@.temp,
                forall|j: int|
                    0 <= j < i ==> #[trigger] self@.perm[j] == (NodeModel {
                        grad: T::zero_spec(),
                        ..old(self)@.perm[j]
                    }),
                forall|j: int| i <= j < np ==> #[trigger] self@.perm[j] == old(self)@.perm[j],
            decreases np - i,
        {
            let ghost old_perm_view = self@.perm;
            let mut v = self.permanent[i];
            proof {
                assert(v@ == self@.perm[i as int]);
                assert(self@.perm[i as int] == old(self)@.perm[i as int]);
            }
            v.set_grad(T::zero());
            self.permanent[i] = v;
            proof {
                assert(self@.perm =~= old_perm_view.update(i as int, v@));
                assert(self@.perm[i as int] == (NodeModel {
                    grad: T::zero_spec(),
                    ..old(self)@.perm[i as int]
                }));
            }
            i += 1;
        }
        let nt = self.temporary.len();
        let mut k: usize = 0;
        while k < nt
            invariant
                k <= nt,
                nt as int == self@.temp.len(),
                self@.temp.len() == old(self)@.temp.len(),
                self@.perm == zero_all(old(self)@).perm,
                forall|j: int|
                    0 <= j < k ==> #[trigger] self@.temp[j] == (NodeModel {
                        grad: T::zero_spec(),
                        ..old(self)@.temp[j]
                    }),
                forall|j: int| k <= j < nt ==> #[trigger] self@.temp[j] == old(self)@.temp[j],
            decreases nt - k,
        {
            let ghost old_temp_view = self@.temp;
            let mut v = self.temporary[k];
            proof {
                assert(v@ == self@.temp[k as int]);
                assert(self@.temp[k as int] == old(self)@.temp[k as int]);
            }
            v.set_grad(T::zero());
            self.temporary[k] = v;
            proof {
                assert(self@.temp =~= old_temp_view.update(k as int, v@));
                assert(self@.temp[k as int] == (NodeModel {
                    grad: T::zero_spec(),
                    ..old(self)@.temp[k as int]
                }));
            }
            k += 1;
        }
        proof {
            assert(self@.temp =~= target.temp);
            assert(self@ =~= target);
            assert forall|j: int| 0 <= j < self@.temp.len() implies node_wf(
                self@,
                #[trigger] self@.temp[j],
                j,
            ) by {
                assert(node_wf(old(self)@, old(self)@.temp[j], j));
            }
        }
    }

    /// Discards the whole per-iteration pool in one stroke; the permanent
    /// pool — the long-lived leaves, their data and their gradients — is
    /// untouched. Must run between training iterations to bound memory.
    pub fn clear_temps(&mut self)
        requires
            old(self).wf(),
        ensures
            final(self)@.perm == old(self)@.perm,
            final(self)@.temp == Seq::<NodeModel<T>>::empty(),
            final(self).wf(),
    {
        self.temporary.clear();
        proof {
            assert(self@.perm =~= old(self)@.perm);
            assert(self@.temp =~= Seq::<NodeModel<T>>::empty());
        }
    }

    /// One whole backward pass: seeds the most recently created temporary
    /// node — the root — with the multiplicative identity, then runs every
    /// temporary node's backward rule in reverse creation order, so each
    /// node's rule runs only after all its dependents have contributed. On
    /// an empty per-iteration pool nothing happens.
    pub fn backward(&mut self)
        requires
            old(self).wf(),
        ensures
            final(self)@ == backward_spec(old(self)@),
            final(self).wf(),
    {
        let n = self.temporary.len();
        proof {
            assert(old(self)@.temp.len() == n as int);
        }
        if n == 0 {
            return;
        }
        let idx0 = n - 1;
        let mut root = self.temporary[idx0];
        root.set_grad(T::one());
        self.temporary[idx0] = root;
        let ghost m0 = seeded(old(self)@);
        proof {
            assert(self@.temp =~= m0.temp);
            assert(self@ =~= m0);
            assert forall|j: int| 0 <= j < self@.temp.len() implies node_wf(
                self@,
                #[trigger] self@.temp[j],
                j,
            ) by {
                assert(node_wf(old(self)@, old(self)@.temp[j], j));
            }
        }
        let ghost target = back_rec(m0, n as nat);
        let mut i = n;
        while i > 0
            invariant
                i <= n,
                self.wf(),
                self@.temp.len() == n as int,
                back_rec(self@, i as nat) == target,
            decreases i,
        {
            let node = self.temporary[i - 1];
            proof {
                assert(node@ == self@.temp[i - 1]);
                assert(node_wf(self@, node@, i - 1));
            }
            let ghost before = self@;
            self.apply_backward(node);
            proof {
                assert(back_rec(before, i as nat) == back_rec(
                    rule_effect(before, node@),
                    (i - 1) as nat,
                ));
            }
            i -= 1;
        }
        proof {
            assert(back_rec(self@, 0nat) == self@);
            assert(backward_spec(old(self)@) == target);
        }
    }

    /// Allocates `size` fresh leaves holding the multiplicative identity at
    /// position `index` and the additive identity everywhere else — in the
    /// per-iteration pool when `temp` is set, in the permanent pool
    /// otherwise — and returns their handles in order.
    pub fn alloc_one_hot(&mut self, index: usize, size: usize, temp: bool) -> (r: Vec<ValueId>)
        requires
            old(self).wf(),
            temp ==> old(self)@.temp.len() + size <= i64::MAX as int,
            !temp ==> old(self)@.perm.len() + size <= i64::MAX as int,
        ensures
            r@.len() == size,
            final(self).wf(),
            temp ==> final(self)@.temp == old(self)@.temp + one_hot_models::<T>(
                index as int,
                size as int,
            ) && final(self)@.perm == old(self)@.perm && forall|j: int|
                0 <= j < size ==> (#[trigger] r@[j])@ == -(old(self)@.temp.len() + j + 1),
            !temp ==> final(self)@.perm == old(self)@.perm + one_hot_models::<T>(
                index as int,
                size as int,
            ) && final(self)@.temp == old(self)@.temp && forall|j: int|
                0 <= j < size ==> (#[trigger] r@[j])@ == old(self)@.perm.len() + j,
    {
        let mut r: Vec<ValueId> = Vec::new();
        let mut i: usize = 0;
        while i < size
            invariant
                i <= size,
                self.wf(),
                r@.len() == i,
                temp ==> old(self)@.temp.len() + size <= i64::MAX as int,
                !temp ==> old(self)@.perm.len() + size <= i64::MAX as int,
                temp ==> self@.temp == old(self)@.temp + one_hot_models::<T>(
                    index as int,
                    i as int,
                ) && self@.perm == old(self)@.perm && forall|j: int|
                    0 <= j < i ==> (#[trigger] r@[j])@ == -(old(self)@.temp.len() + j + 1),
                !temp ==> self@.perm == old(self)@.perm + one_hot_models::<T>(
                    index as int,
                    i as int,
                ) && self@.temp == old(self)@.temp && forall|j: int|
                    0 <= j < i ==> (#[trigger] r@[j])@ == old(self)@.perm.len() + j,
            decreases size - i,
        {
            let v = if i == index {
                T::one()
            } else {
                T::zero()
            };
            let id = if temp {
                self.alloc_t(v)
            } else {
                self.alloc_perm(v)
            };
            r.push(id);
            proof {
                let ghost elem = leaf_model::<T>(
                    if i == index {
                        T::one_spec()
                    } else {
                        T::zero_spec()
                    },
                );
                assert(one_hot_models::<T>(index as int, i + 1 as int) =~= one_hot_models::<T>(
                    index as int,
                    i as int,
                ).push(elem));
                if temp {
                    assert(self@.temp =~= old(self)@.temp + one_hot_models::<T>(
                        index as int,
                        i + 1 as int,
                    ));
                } else {
                    assert(self@.perm =~= old(self)@.perm + one_hot_models::<T>(
                        index as int,
                        i + 1 as int,
                    ));
                }
            }
            i += 1;
        }
        r
    }
}

/// The models of `size` fresh leaves carrying the multiplicative identity at
/// `index` and the additive identity elsewhere.
pub open spec fn one_hot_models<T: Num>(index: int, size: int) -> Seq<NodeModel<T>> {
    Seq::new(
        size as nat,
        |j: int|
            leaf_model(
                if j == index {
                    T::one_spec()
                } else {
                    T::zero_spec()
                },
            ),
    )
}

} // verus!
