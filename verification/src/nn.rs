use vstd::prelude::*;

use crate::allocator::{
    extends, lemma_extends_node, lemma_extends_trans, node_at, set_node, stepped_node, valid_id,
    Allocator, GraphModel, ValueId,
};
use crate::engine::{leaf_model, NodeModel};
use crate::operators::Num;

verus! {

/// The activation applied by a neuron: one of the engine's unary operators,
/// or none for the raw weighted sum.
#[derive(Clone, Copy, PartialEq, Eq, Structural, Debug)]
pub enum Activation {
    Neg,
    Exp,
    Ln,
    Tanh,
    Relu,
}

/// The value an activation computes from the weighted sum `x`.
pub open spec fn activation_value<T: Num>(act: Option<Activation>, x: T) -> T {
    match act {
        None => x,
        Some(Activation::Neg) => x.mul_spec(T::one_spec().neg_spec()),
        Some(Activation::Exp) => x.exp_spec(),
        Some(Activation::Ln) => x.ln_spec(),
        Some(Activation::Tanh) => x.tanh_spec(),
        Some(Activation::Relu) => if x.gt_spec(T::zero_spec()) {
            x
        } else {
            T::zero_spec()
        },
    }
}

/// The data of the nodes that `ids` name in `m`, in order.
pub open spec fn datas_at<T: Num>(m: GraphModel<T>, ids: Seq<ValueId>) -> Seq<T> {
    ids.map_values(|id: ValueId| node_at(m, id@).data)
}

/// The weighted sum `b + ws[0]*xs[0] + ... + ws[k-1]*xs[k-1]`, associated
/// exactly as the forward pass accumulates it, left to right from the bias.
pub open spec fn affine_value<T: Num>(ws: Seq<T>, xs: Seq<T>, b: T, k: int) -> T
    decreases k,
{
    if k <= 0 {
        b
    } else {
        affine_value(ws, xs, b, k - 1).add_spec(ws[k - 1].mul_spec(xs[k - 1]))
    }
}

/// One neuron: handles of its weight leaves and its bias leaf — all in the
/// permanent pool of the arena they were allocated from — and an optional
/// activation.
pub struct Neuron {
    pub weights: Vec<ValueId>,
    pub bias: ValueId,
    pub activation: Option<Activation>,
}

impl Neuron {
    /// The neuron's parameters name permanent nodes of `m`, so they survive
    /// the clearing of the per-iteration pool.
    pub open spec fn wf<T: Num>(self, m: GraphModel<T>) -> bool {
        &&& 0 <= self.bias@ < m.perm.len()
        &&& forall|j: int|
            0 <= j < self.weights@.len() ==> 0 <= (#[trigger] self.weights@[j])@ < m.perm.len()
    }

    /// What the neuron computes in `m` from the input values `xs`:
    /// `activation(sum_j(weight_j * xs_j) + bias)`.
    pub open spec fn value_in<T: Num>(self, m: GraphModel<T>, xs: Seq<T>) -> T {
        activation_value(
            self.activation,
            affine_value(
                datas_at(m, self.weights@),
                xs,
                node_at(m, self.bias@).data,
                self.weights@.len() as int,
            ),
        )
    }

    /// Allocates one permanent leaf per given weight, then one for the bias,
    /// and returns the neuron that holds their handles.
    pub fn new<T: Num>(
        alloc: &mut Allocator<T>,
        weights: &Vec<T>,
        bias: T,
        activation: Option<Activation>,
    ) -> (r: Neuron)
        requires
            old(alloc).wf(),
            old(alloc)@.perm.len() + weights@.len() + 1 <= i64::MAX as int,
        ensures
            final(alloc).wf(),
            final(alloc)@.temp == old(alloc)@.temp,
            final(alloc)@.perm == old(alloc)@.perm + weights@.map_values(
                |w: T| leaf_model::<T>(w),
            ) + seq![leaf_model::<T>(bias)],
            r.weights@.len() == weights@.len(),
            forall|j: int|
                0 <= j < weights@.len() ==> (#[trigger] r.weights@[j])@ == old(
                    alloc,
                )@.perm.len() + j,
            r.bias@ == old(alloc)@.perm.len() + weights@.len(),
            r.activation == activation,
            r.wf(final(alloc)@),
    {
        let n = weights.len();
        let mut ids: Vec<ValueId> = Vec::new();
        let mut j: usize = 0;
        while j < n
            invariant
                j <= n,
                n == weights@.len(),
                alloc.wf(),
                old(alloc)@.perm.len() + n + 1 <= i64::MAX as int,
                alloc@.temp == old(alloc)@.temp,
                alloc@.perm == old(alloc)@.perm + weights@.take(j as int).map_values(
                    |w: T| leaf_model::<T>(w),
                ),
                ids@.len() == j,
                forall|t: int|
                    0 <= t < j ==> (#[trigger] ids@[t])@ == old(alloc)@.perm.len() + t,
            decreases n - j,
        {
            let id = alloc.alloc_perm(weights[j]);
            ids.push(id);
            proof {
                assert(weights@.take(j + 1).map_values(|w: T| leaf_model::<T>(w))
                    =~= weights@.take(j as int).map_values(|w: T| leaf_model::<T>(w)).push(
                    leaf_model::<T>(weights@[j as int]),
                ));
                assert(alloc@.perm =~= old(alloc)@.perm + weights@.take(j + 1).map_values(
                    |w: T| leaf_model::<T>(w),
                ));
            }
            j += 1;
        }
        let b = alloc.alloc_perm(bias);
        proof {
            assert(weights@.take(n as int) =~= weights@);
            assert(alloc@.perm =~= old(alloc)@.perm + weights@.map_values(
                |w: T| leaf_model::<T>(w),
            ) + seq![leaf_model::<T>(bias)]);
        }
        Neuron { weights: ids, bias: b, activation }
    }

    /// Forward evaluation: builds the chain of derived nodes for
    /// `activation(sum_j(weight_j * input_j) + bias)` and returns the handle
    /// of the node holding that value. Only the per-iteration pool grows;
    /// every pre-existing node is untouched.
    pub fn forward<T: Num>(&self, alloc: &mut Allocator<T>, inputs: &Vec<ValueId>) -> (r: ValueId)
        requires
            old(alloc).wf(),
            self.wf(old(alloc)@),
            inputs@.len() == self.weights@.len(),
            forall|j: int|
                0 <= j < inputs@.len() ==> valid_id(old(alloc)@, (#[trigger] inputs@[j])@),
            old(alloc)@.temp.len() + 2 * inputs@.len() + 2 <= i64::MAX as int,
        ensures
            final(alloc).wf(),
            extends(final(alloc)@, old(alloc)@),
            final(alloc)@.temp.len() <= old(alloc)@.temp.len() + 2 * inputs@.len() + 1,
            valid_id(final(alloc)@, r@),
            node_at(final(alloc)@, r@).data == self.value_in(
                old(alloc)@,
                datas_at(old(alloc)@, inputs@),
            ),
    {
        let n = inputs.len();
        let ghost ws = datas_at(old(alloc)@, self.weights@);
        let ghost xs = datas_at(old(alloc)@, inputs@);
        let ghost bdata = node_at(old(alloc)@, self.bias@).data;
        let mut acc = self.bias;
        proof {
            assert(extends(alloc@, old(alloc)@)) by {
                assert(old(alloc)@.temp =~= alloc@.temp.subrange(
                    0,
                    old(alloc)@.temp.len() as int,
                ));
            }
        }
        let mut i: usize = 0;
        while i < n
            invariant
                i <= n,
                n == inputs@.len(),
                n == self.weights@.len(),
                alloc.wf(),
                self.wf(old(alloc)@),
                forall|j: int|
                    0 <= j < inputs@.len() ==> valid_id(old(alloc)@, (#[trigger] inputs@[j])@),
                old(alloc)@.temp.len() + 2 * n + 2 <= i64::MAX as int,
                extends(alloc@, old(alloc)@),
                alloc@.temp.len() <= old(alloc)@.temp.len() + 2 * i,
                valid_id(alloc@, acc@),
                node_at(alloc@, acc@).data == affine_value(ws, xs, bdata, i as int),
                ws == datas_at(old(alloc)@, self.weights@),
                xs == datas_at(old(alloc)@, inputs@),
                bdata == node_at(old(alloc)@, self.bias@).data,
            decreases n - i,
        {
            let w = self.weights[i];
            let x = inputs[i];
            proof {
                lemma_extends_node(old(alloc)@, alloc@, w@);
                lemma_extends_node(old(alloc)@, alloc@, x@);
            }
            let ghost m_pre = alloc@;
            let p = alloc.mul(w, x);
            let ghost m_mid = alloc@;
            proof {
                assert(extends(m_mid, m_pre)) by {
                    assert(m_pre.temp =~= m_mid.temp.subrange(0, m_pre.temp.len() as int));
                }
                lemma_extends_trans(m_mid, m_pre, old(alloc)@);
                lemma_extends_node(m_pre, m_mid, acc@);
                assert(node_at(m_mid, p@).data == ws[i as int].mul_spec(xs[i as int])) by {
                    lemma_extends_node(old(alloc)@, m_pre, w@);
                    lemma_extends_node(old(alloc)@, m_pre, x@);
                }
            }
            let acc2 = alloc.add(acc, p);
            proof {
                assert(extends(alloc@, m_mid)) by {
                    assert(m_mid.temp =~= alloc@.temp.subrange(0, m_mid.temp.len() as int));
                }
                lemma_extends_trans(alloc@, m_mid, old(alloc)@);
                assert(node_at(alloc@, acc2@).data == affine_value(ws, xs, bdata, i + 1));
            }
            acc = acc2;
            i += 1;
        }
        let ghost m_loop = alloc@;
        let r = match self.activation {
            None => acc,
            Some(Activation::Neg) => alloc.neg(acc),
            Some(Activation::Exp) => alloc.exp(acc),
            Some(Activation::Ln) => alloc.ln(acc),
            Some(Activation::Tanh) => alloc.tanh(acc),
            Some(Activation::Relu) => alloc.relu(acc),
        };
        proof {
            if self.activation is Some {
                assert(extends(alloc@, m_loop)) by {
                    assert(m_loop.temp =~= alloc@.temp.subrange(0, m_loop.temp.len() as int));
                }
                lemma_extends_trans(alloc@, m_loop, old(alloc)@);
            }
        }
        r
    }
}

/// What a neuron computes does not change when the arena grows by forward
/// work: its parameters live in the unchanged permanent pool.
pub proof fn lemma_value_in_stable<T: Num>(
    n: Neuron,
    m0: GraphModel<T>,
    m1: GraphModel<T>,
    xs: Seq<T>,
)
    requires
        extends(m1, m0),
        n.wf(m0),
    ensures
        n.wf(m1),
        n.value_in(m1, xs) == n.value_in(m0, xs),
{
    assert(datas_at(m1, n.weights@) =~= datas_at(m0, n.weights@)) by {
        assert forall|j: int| 0 <= j < n.weights@.len() implies datas_at(m1, n.weights@)[j]
            == datas_at(m0, n.weights@)[j] by {
            lemma_extends_node(m0, m1, n.weights@[j]@);
        }
    }
    lemma_extends_node(m0, m1, n.bias@);
}

/// An ordered set of neurons sharing the same inputs.
pub struct Layer {
    pub neurons: Vec<Neuron>,
}

/// The values a layer's neurons compute in `m` from the input values `xs`,
/// in neuron order.
pub open spec fn layer_values<T: Num>(l: Layer, m: GraphModel<T>, xs: Seq<T>) -> Seq<T> {
    Seq::new(l.neurons@.len(), |k: int| l.neurons@[k].value_in(m, xs))
}

impl Layer {
    /// Every neuron's parameters name permanent nodes of `m`.
    pub open spec fn wf<T: Num>(self, m: GraphModel<T>) -> bool {
        forall|k: int| 0 <= k < self.neurons@.len() ==> (#[trigger] self.neurons@[k]).wf(m)
    }

    /// Every neuron takes `n_in` inputs.
    pub open spec fn width_ok(self, n_in: int) -> bool {
        forall|k: int|
            0 <= k < self.neurons@.len() ==> (#[trigger] self.neurons@[k]).weights@.len() == n_in
    }

    /// Allocates `num_neurons` neurons of `num_inputs` inputs each; the
    /// initial values are consumed from `inits` in order, the `num_inputs`
    /// weights of each neuron followed by its bias.
    pub fn new<T: Num>(
        alloc: &mut Allocator<T>,
        num_inputs: usize,
        num_neurons: usize,
        inits: &Vec<T>,
        activation: Option<Activation>,
    ) -> (r: Layer)
        requires
            old(alloc).wf(),
            inits@.len() == num_neurons * (num_inputs + 1),
            old(alloc)@.perm.len() + inits@.len() + 1 <= i64::MAX as int,
        ensures
            final(alloc).wf(),
            final(alloc)@.temp == old(alloc)@.temp,
            final(alloc)@.perm == old(alloc)@.perm + inits@.map_values(|w: T| leaf_model::<T>(w)),
            r.neurons@.len() == num_neurons,
            r.wf(final(alloc)@),
            r.width_ok(num_inputs as int),
            forall|k: int|
                0 <= k < num_neurons ==> (#[trigger] r.neurons@[k]).activation == activation,
            forall|k: int, j: int|
                0 <= k < num_neurons && 0 <= j < num_inputs
                    ==> (#[trigger] r.neurons@[k].weights@[j])@ == old(alloc)@.perm.len() + k * (
                num_inputs + 1) + j,
            forall|k: int|
                0 <= k < num_neurons ==> (#[trigger] r.neurons@[k]).bias@ == old(
                    alloc,
                )@.perm.len() + k * (num_inputs + 1) + num_inputs,
    {
        let ghost p0 = old(alloc)@.perm.len() as int;
        let ghost total = inits@.len() as int;
        let total_len = inits.len();
        let mut neurons: Vec<Neuron> = Vec::new();
        let mut pos: usize = 0;
        let mut k: usize = 0;
        while k < num_neurons
            invariant
                k <= num_neurons,
                pos as int == k * (num_inputs as int + 1),
                pos <= inits@.len(),
                total_len == inits@.len(),
                inits@.len() == num_neurons * (num_inputs + 1),
                old(alloc)@.perm.len() + inits@.len() + 1 <= i64::MAX as int,
                p0 == old(alloc)@.perm.len() as int,
                alloc.wf(),
                alloc@.temp == old(alloc)@.temp,
                alloc@.perm == old(alloc)@.perm + inits@.take(pos as int).map_values(
                    |w: T| leaf_model::<T>(w),
                ),
                neurons@.len() == k,
                forall|t: int|
                    0 <= t < k ==> (#[trigger] neurons@[t]).weights@.len() == num_inputs
                        && neurons@[t].activation == activation && neurons@[t].wf(alloc@),
                forall|t: int, j: int|
                    0 <= t < k && 0 <= j < num_inputs ==> (#[trigger] neurons@[t].weights@[j])@
                        == p0 + t * (num_inputs as int + 1) + j,
                forall|t: int|
                    0 <= t < k ==> (#[trigger] neurons@[t]).bias@ == p0 + t * (num_inputs as int
                        + 1) + num_inputs,
            decreases num_neurons - k,
        {
            proof {
                vstd::arithmetic::mul::lemma_mul_inequality(
                    k as int + 1,
                    num_neurons as int,
                    num_inputs as int + 1,
                );
                vstd::arithmetic::mul::lemma_mul_is_distributive_add_other_way(
                    num_inputs as int + 1,
                    k as int,
                    1,
                );
                assert(pos as int + num_inputs as int + 1 <= inits@.len());
            }
            let ghost pos0 = pos as int;
            let mut w_vals: Vec<T> = Vec::new();
            let mut j: usize = 0;
            while j < num_inputs
                invariant
                    j <= num_inputs,
                    0 <= pos0,
                    pos as int == pos0 + j,
                    pos0 + num_inputs as int + 1 <= inits@.len(),
                    total_len == inits@.len(),
                    w_vals@ == inits@.subrange(pos0, pos as int),
                decreases num_inputs - j,
            {
                w_vals.push(inits[pos]);
                proof {
                    assert(inits@.subrange(pos0, pos as int + 1) =~= inits@.subrange(
                        pos0,
                        pos as int,
                    ).push(inits@[pos as int]));
                }
                pos += 1;
                j += 1;
            }
            let bias_val = inits[pos];
            pos += 1;
            let ghost m_pre = alloc@;
            let neuron = Neuron::new(alloc, &w_vals, bias_val, activation);
            neurons.push(neuron);
            proof {
                assert(alloc@.perm =~= old(alloc)@.perm + inits@.take(pos as int).map_values(
                    |w: T| leaf_model::<T>(w),
                )) by {
                    assert(w_vals@.map_values(|w: T| leaf_model::<T>(w)) =~= inits@.subrange(
                        pos0,
                        pos0 + num_inputs as int,
                    ).map_values(|w: T| leaf_model::<T>(w)));
                }
                assert(m_pre.perm.len() == p0 + pos0);
                assert forall|t: int| 0 <= t < k + 1 implies (#[trigger] neurons@[t]).wf(
                    alloc@,
                ) && neurons@[t].weights@.len() == num_inputs && neurons@[t].activation
                    == activation by {
                    if t < k {
                        assert(neurons@[t].wf(m_pre));
                        assert(alloc@.perm.len() >= m_pre.perm.len());
                    }
                }
            }
            k += 1;
        }
        proof {
            assert(pos as int == inits@.len()) by {
                vstd::arithmetic::mul::lemma_mul_is_commutative(
                    num_neurons as int,
                    num_inputs as int + 1,
                );
            }
            assert(inits@.take(pos as int) =~= inits@);
        }
        Layer { neurons }
    }

    /// Forward evaluation of every neuron on the shared inputs, in order;
    /// returns one handle per neuron. Only the per-iteration pool grows.
    pub fn forward<T: Num>(&self, alloc: &mut Allocator<T>, inputs: &Vec<ValueId>) -> (r: Vec<
        ValueId,
    >)
        requires
            old(alloc).wf(),
            self.wf(old(alloc)@),
            self.width_ok(inputs@.len() as int),
            forall|j: int|
                0 <= j < inputs@.len() ==> valid_id(old(alloc)@, (#[trigger] inputs@[j])@),
            old(alloc)@.temp.len() + self.neurons@.len() * (2 * inputs@.len() + 2)
                <= i64::MAX as int,
        ensures
            final(alloc).wf(),
            extends(final(alloc)@, old(alloc)@),
            final(alloc)@.temp.len() <= old(alloc)@.temp.len() + self.neurons@.len() * (2
                * inputs@.len() + 2),
            r@.len() == self.neurons@.len(),
            forall|k: int| 0 <= k < r@.len() ==> valid_id(final(alloc)@, (#[trigger] r@[k])@),
            forall|k: int|
                0 <= k < r@.len() ==> node_at(final(alloc)@, (#[trigger] r@[k])@).data
                    == layer_values(*self, old(alloc)@, datas_at(old(alloc)@, inputs@))[k],
    {
        let n_in = inputs.len();
        let count = self.neurons.len();
        let mut r: Vec<ValueId> = Vec::new();
        let mut k: usize = 0;
        proof {
            assert(extends(alloc@, old(alloc)@)) by {
                assert(old(alloc)@.temp =~= alloc@.temp.subrange(
                    0,
                    old(alloc)@.temp.len() as int,
                ));
            }
        }
        while k < count
            invariant
                k <= count,
                count == self.neurons@.len(),
                n_in == inputs@.len(),
                alloc.wf(),
                self.wf(old(alloc)@),
                self.width_ok(n_in as int),
                forall|j: int|
                    0 <= j < inputs@.len() ==> valid_id(old(alloc)@, (#[trigger] inputs@[j])@),
                old(alloc)@.temp.len() + count * (2 * n_in as int + 2) <= i64::MAX as int,
                extends(alloc@, old(alloc)@),
                alloc@.temp.len() <= old(alloc)@.temp.len() + k * (2 * n_in as int + 2),
                r@.len() == k,
                forall|t: int| 0 <= t < k ==> valid_id(alloc@, (#[trigger] r@[t])@),
                forall|t: int|
                    0 <= t < k ==> node_at(alloc@, (#[trigger] r@[t])@).data == layer_values(
                        *self,
                        old(alloc)@,
                        datas_at(old(alloc)@, inputs@),
                    )[t],
            decreases count - k,
        {
            proof {
                vstd::arithmetic::mul::lemma_mul_inequality(
                    k as int + 1,
                    count as int,
                    2 * n_in as int + 2,
                );
                vstd::arithmetic::mul::lemma_mul_is_distributive_add_other_way(
                    2 * n_in as int + 2,
                    k as int,
                    1,
                );
                assert(alloc@.temp.len() + 2 * n_in as int + 2 <= i64::MAX as int);
                assert forall|j: int| 0 <= j < inputs@.len() implies valid_id(
                    alloc@,
                    (#[trigger] inputs@[j])@,
                ) by {
                    lemma_extends_node(old(alloc)@, alloc@, inputs@[j]@);
                }
                lemma_value_in_stable(
                    self.neurons@[k as int],
                    old(alloc)@,
                    alloc@,
                    datas_at(old(alloc)@, inputs@),
                );
            }
            let ghost m_pre = alloc@;
            let neuron = &self.neurons[k];
            let out = neuron.forward(alloc, inputs);
            proof {
                lemma_extends_trans(alloc@, m_pre, old(alloc)@);
                assert(datas_at(m_pre, inputs@) =~= datas_at(old(alloc)@, inputs@)) by {
                    assert forall|j: int| 0 <= j < inputs@.len() implies datas_at(
                        m_pre,
                        inputs@,
                    )[j] == datas_at(old(alloc)@, inputs@)[j] by {
                        lemma_extends_node(old(alloc)@, m_pre, inputs@[j]@);
                    }
                }
                assert forall|t: int| 0 <= t < k implies valid_id(alloc@, (#[trigger] r@[t])@)
                    && node_at(alloc@, r@[t]@) == node_at(m_pre, r@[t]@) by {
                    lemma_extends_node(m_pre, alloc@, r@[t]@);
                }
            }
            r.push(out);
            k += 1;
        }
        r
    }
}

/// A multi-layer perceptron: an ordered sequence of layers, each layer's
/// output vector feeding the next layer.
pub struct MLP {
    pub layers: Vec<Layer>,
}

/// The output values of the first `k` layers, chained: the input values go
/// through layer `0`, its outputs through layer `1`, and so on.
pub open spec fn mlp_values<T: Num>(
    layers: Seq<Layer>,
    m: GraphModel<T>,
    xs: Seq<T>,
    k: int,
) -> Seq<T>
    decreases k,
{
    if k <= 0 {
        xs
    } else {
        layer_values(layers[k - 1], m, mlp_values(layers, m, xs, k - 1))
    }
}

/// How many derived nodes a forward pass over layers `k`, `k + 1`, ... may
/// create, with `n_in` inputs reaching layer `k`.
pub open spec fn forward_cost(layers: Seq<Layer>, k: int, n_in: int) -> int
    decreases layers.len() - k,
{
    if k < 0 || k >= layers.len() {
        0
    } else {
        layers[k].neurons@.len() * (2 * n_in + 2) + forward_cost(
            layers,
            k + 1,
            layers[k].neurons@.len() as int,
        )
    }
}

pub proof fn lemma_forward_cost_nonneg(layers: Seq<Layer>, k: int, n_in: int)
    requires
        n_in >= 0,
    ensures
        forward_cost(layers, k, n_in) >= 0,
    decreases layers.len() - k,
{
    if 0 <= k < layers.len() {
        vstd::arithmetic::mul::lemma_mul_nonnegative(
            layers[k].neurons@.len() as int,
            2 * n_in + 2,
        );
        lemma_forward_cost_nonneg(layers, k + 1, layers[k].neurons@.len() as int);
    }
}

/// The models of the leaves created by the first `k` entries of the
/// per-layer initial values, in allocation order.
pub open spec fn inits_models<T: Num>(ls: Seq<Vec<T>>, k: int) -> Seq<NodeModel<T>>
    decreases k,
{
    if k <= 0 {
        Seq::empty()
    } else {
        inits_models(ls, k - 1) + ls[k - 1]@.map_values(|w: T| leaf_model::<T>(w))
    }
}

/// How many leaves the first `k` entries of the per-layer initial values
/// hold together.
pub open spec fn total_inits<T>(ls: Seq<Vec<T>>, k: int) -> int
    decreases k,
{
    if k <= 0 {
        0
    } else {
        total_inits(ls, k - 1) + ls[k - 1]@.len()
    }
}

pub proof fn lemma_total_inits_mono<T>(ls: Seq<Vec<T>>, k1: int, k2: int)
    requires
        k1 <= k2,
    ensures
        total_inits(ls, k1) <= total_inits(ls, k2),
    decreases k2 - k1,
{
    if k1 < k2 {
        lemma_total_inits_mono(ls, k1, k2 - 1);
    }
}

/// The arena after one gradient-descent step over the weight handles
/// `ids[0]`, ..., `ids[k - 1]`, in order.
pub open spec fn step_weights_spec<T: Num>(
    m: GraphModel<T>,
    ids: Seq<ValueId>,
    lr: T,
    k: int,
) -> GraphModel<T>
    decreases k,
{
    if k <= 0 {
        m
    } else {
        let m1 = step_weights_spec(m, ids, lr, k - 1);
        set_node(m1, ids[k - 1]@, stepped_node(node_at(m1, ids[k - 1]@), lr))
    }
}

/// The arena after one gradient-descent step over a neuron's parameters:
/// its weights in order, then its bias.
pub open spec fn step_neuron_spec<T: Num>(m: GraphModel<T>, n: Neuron, lr: T) -> GraphModel<T> {
    let m1 = step_weights_spec(m, n.weights@, lr, n.weights@.len() as int);
    set_node(m1, n.bias@, stepped_node(node_at(m1, n.bias@), lr))
}

/// The arena after one gradient-descent step over the parameters of the
/// neurons `0`, ..., `k - 1`, in order.
pub open spec fn step_neurons_spec<T: Num>(
    m: GraphModel<T>,
    neurons: Seq<Neuron>,
    lr: T,
    k: int,
) -> GraphModel<T>
    decreases k,
{
    if k <= 0 {
        m
    } else {
        step_neuron_spec(step_neurons_spec(m, neurons, lr, k - 1), neurons[k - 1], lr)
    }
}

/// The arena after one gradient-descent step over every parameter of the
/// layers `0`, ..., `k - 1`, in order.
pub open spec fn step_layers_spec<T: Num>(
    m: GraphModel<T>,
    layers: Seq<Layer>,
    lr: T,
    k: int,
) -> GraphModel<T>
    decreases k,
{
    if k <= 0 {
        m
    } else {
        let m1 = step_layers_spec(m, layers, lr, k - 1);
        step_neurons_spec(m1, layers[k - 1].neurons@, lr, layers[k - 1].neurons@.len() as int)
    }
}

impl MLP {
    /// Every layer's parameters name permanent nodes of `m`.
    pub open spec fn wf<T: Num>(self, m: GraphModel<T>) -> bool {
        forall|k: int| 0 <= k < self.layers@.len() ==> (#[trigger] self.layers@[k]).wf(m)
    }

    /// The layers fit together: layer `0` takes `n_in` inputs, and every
    /// later layer takes the previous layer's outputs.
    pub open spec fn widths_from(self, n_in: int) -> bool {
        forall|k: int|
            0 <= k < self.layers@.len() ==> (#[trigger] self.layers@[k]).width_ok(
                if k == 0 {
                    n_in
                } else {
                    self.layers@[k - 1].neurons@.len() as int
                },
            )
    }

    /// Builds one layer per adjacent pair of `sizes`, layer `k` mapping
    /// `sizes[k]` inputs to `sizes[k + 1]` outputs; the initial values of
    /// layer `k` are consumed from `layer_inits[k]` as in [`Layer::new`].
    pub fn new<T: Num>(
        alloc: &mut Allocator<T>,
        sizes: &Vec<usize>,
        layer_inits: &Vec<Vec<T>>,
        activation: Option<Activation>,
    ) -> (r: MLP)
        requires
            old(alloc).wf(),
            sizes@.len() >= 1,
            layer_inits@.len() == sizes@.len() - 1,
            forall|k: int|
                0 <= k < layer_inits@.len() ==> (#[trigger] layer_inits@[k])@.len() == sizes@[k
                    + 1] * (sizes@[k] as int + 1),
            old(alloc)@.perm.len() + total_inits(layer_inits@, layer_inits@.len() as int)
                + sizes@.len() <= i64::MAX as int,
        ensures
            final(alloc).wf(),
            final(alloc)@.temp == old(alloc)@.temp,
            final(alloc)@.perm == old(alloc)@.perm + inits_models(
                layer_inits@,
                layer_inits@.len() as int,
            ),
            r.layers@.len() == sizes@.len() - 1,
            r.wf(final(alloc)@),
            r.widths_from(sizes@[0] as int),
            forall|k: int|
                0 <= k < r.layers@.len() ==> (#[trigger] r.layers@[k]).neurons@.len() == sizes@[k
                    + 1],
            forall|k: int, t: int|
                0 <= k < r.layers@.len() && 0 <= t < r.layers@[k].neurons@.len()
                    ==> (#[trigger] r.layers@[k].neurons@[t]).activation == activation,
    {
        let ghost ls = layer_inits@;
        let nl = layer_inits.len();
        let mut layers: Vec<Layer> = Vec::new();
        let mut k: usize = 0;
        while k < nl
            invariant
                k <= nl,
                nl == layer_inits@.len(),
                ls == layer_inits@,
                sizes@.len() == nl + 1,
                forall|t: int|
                    0 <= t < nl ==> (#[trigger] layer_inits@[t])@.len() == sizes@[t + 1] * (
                    sizes@[t] as int + 1),
                old(alloc)@.perm.len() + total_inits(ls, nl as int) + sizes@.len()
                    <= i64::MAX as int,
                alloc.wf(),
                alloc@.temp == old(alloc)@.temp,
                alloc@.perm == old(alloc)@.perm + inits_models(ls, k as int),
                alloc@.perm.len() == old(alloc)@.perm.len() + total_inits(ls, k as int),
                layers@.len() == k,
                forall|t: int|
                    0 <= t < k ==> (#[trigger] layers@[t]).neurons@.len() == sizes@[t + 1],
                forall|t: int|
                    0 <= t < k ==> (#[trigger] layers@[t]).wf(alloc@) && layers@[t].width_ok(
                        sizes@[t] as int,
                    ),
                forall|t: int, u: int|
                    0 <= t < k && 0 <= u < layers@[t].neurons@.len()
                        ==> (#[trigger] layers@[t].neurons@[u]).activation == activation,
            decreases nl - k,
        {
            proof {
                lemma_total_inits_mono(ls, k as int + 1, nl as int);
                assert(total_inits(ls, k as int + 1) == total_inits(ls, k as int) + ls[
                k as int]@.len());
            }
            let ghost m_pre = alloc@;
            let inits_k = &layer_inits[k];
            let layer = Layer::new(alloc, sizes[k], sizes[k + 1], inits_k, activation);
            layers.push(layer);
            proof {
                assert(alloc@.perm =~= old(alloc)@.perm + inits_models(ls, k as int + 1));
                assert forall|t: int| 0 <= t < k + 1 implies (#[trigger] layers@[t]).wf(alloc@)
                    && layers@[t].width_ok(sizes@[t] as int) by {
                    if t < k {
                        assert(layers@[t].wf(m_pre));
                        assert(alloc@.perm.len() >= m_pre.perm.len());
                        assert forall|u: int| 0 <= u < layers@[t].neurons@.len() implies (
                        #[trigger] layers@[t].neurons@[u]).wf(alloc@) by {
                            assert(layers@[t].neurons@[u].wf(m_pre));
                        }
                    }
                }
            }
            k += 1;
        }
        MLP { layers }
    }

    /// Forward evaluation of the whole network: the input handles feed the
    /// first layer, each layer's outputs feed the next, and the last
    /// layer's output handles are returned (the inputs themselves if there
    /// is no layer). Only the per-iteration pool grows.
    pub fn forward<T: Num>(&self, alloc: &mut Allocator<T>, inputs: &Vec<ValueId>) -> (r: Vec<
        ValueId,
    >)
        requires
            old(alloc).wf(),
            self.wf(old(alloc)@),
            self.widths_from(inputs@.len() as int),
            forall|j: int|
                0 <= j < inputs@.len() ==> valid_id(old(alloc)@, (#[trigger] inputs@[j])@),
            old(alloc)@.temp.len() + forward_cost(self.layers@, 0, inputs@.len() as int)
                <= i64::MAX as int,
        ensures
            final(alloc).wf(),
            extends(final(alloc)@, old(alloc)@),
            r@.len() == mlp_values(
                self.layers@,
                old(alloc)@,
                datas_at(old(alloc)@, inputs@),
                self.layers@.len() as int,
            ).len(),
            forall|j: int| 0 <= j < r@.len() ==> valid_id(final(alloc)@, (#[trigger] r@[j])@),
            forall|j: int|
                0 <= j < r@.len() ==> node_at(final(alloc)@, (#[trigger] r@[j])@).data
                    == mlp_values(
                    self.layers@,
                    old(alloc)@,
                    datas_at(old(alloc)@, inputs@),
                    self.layers@.len() as int,
                )[j],
    {
        let ghost xs0 = datas_at(old(alloc)@, inputs@);
        let n_in = inputs.len();
        let mut cur: Vec<ValueId> = Vec::new();
        let mut t: usize = 0;
        while t < n_in
            invariant
                t <= n_in,
                n_in == inputs@.len(),
                cur@ == inputs@.take(t as int),
            decreases n_in - t,
        {
            cur.push(inputs[t]);
            proof {
                assert(inputs@.take(t + 1) =~= inputs@.take(t as int).push(inputs@[t as int]));
            }
            t += 1;
        }
        proof {
            assert(cur@ =~= inputs@);
            assert(extends(alloc@, old(alloc)@)) by {
                assert(old(alloc)@.temp =~= alloc@.temp.subrange(
                    0,
                    old(alloc)@.temp.len() as int,
                ));
            }
            assert(datas_at(alloc@, cur@) =~= xs0);
        }
        let nl = self.layers.len();
        let mut k: usize = 0;
        while k < nl
            invariant
                k <= nl,
                nl == self.layers@.len(),
                alloc.wf(),
                self.wf(old(alloc)@),
                self.widths_from(inputs@.len() as int),
                n_in == inputs@.len(),
                xs0 == datas_at(old(alloc)@, inputs@),
                extends(alloc@, old(alloc)@),
                cur@.len() == mlp_values(self.layers@, old(alloc)@, xs0, k as int).len(),
                cur@.len() == (if k == 0 {
                    n_in as int
                } else {
                    self.layers@[k - 1].neurons@.len() as int
                }),
                forall|j: int| 0 <= j < cur@.len() ==> valid_id(alloc@, (#[trigger] cur@[j])@),
                forall|j: int|
                    0 <= j < cur@.len() ==> node_at(alloc@, (#[trigger] cur@[j])@).data
                        == mlp_values(self.layers@, old(alloc)@, xs0, k as int)[j],
                alloc@.temp.len() + forward_cost(self.layers@, k as int, cur@.len() as int)
                    <= i64::MAX as int,
            decreases nl - k,
        {
            let ghost m_pre = alloc@;
            let ghost vals_k = mlp_values(self.layers@, old(alloc)@, xs0, k as int);
            proof {
                lemma_forward_cost_nonneg(
                    self.layers@,
                    k as int + 1,
                    self.layers@[k as int].neurons@.len() as int,
                );
                vstd::arithmetic::mul::lemma_mul_nonnegative(
                    self.layers@[k as int].neurons@.len() as int,
                    2 * cur@.len() as int + 2,
                );
                assert(self.layers@[k as int].wf(m_pre)) by {
                    assert(self.layers@[k as int].wf(old(alloc)@));
                    assert forall|u: int| 0 <= u < self.layers@[k as int].neurons@.len() implies (
                    #[trigger] self.layers@[k as int].neurons@[u]).wf(m_pre) by {
                        assert(self.layers@[k as int].neurons@[u].wf(old(alloc)@));
                    }
                }
            }
            let layer = &self.layers[k];
            let out = layer.forward(alloc, &cur);
            proof {
                lemma_extends_trans(alloc@, m_pre, old(alloc)@);
                assert(datas_at(m_pre, cur@) =~= vals_k);
                assert forall|j: int| 0 <= j < out@.len() implies node_at(
                    alloc@,
                    (#[trigger] out@[j])@,
                ).data == mlp_values(self.layers@, old(alloc)@, xs0, k as int + 1)[j] by {
                    assert(node_at(alloc@, out@[j]@).data == layer_values(
                        self.layers@[k as int],
                        m_pre,
                        datas_at(m_pre, cur@),
                    )[j]);
                    lemma_value_in_stable(
                        self.layers@[k as int].neurons@[j],
                        old(alloc)@,
                        m_pre,
                        vals_k,
                    );
                }
            }
            cur = out;
            k += 1;
        }
        cur
    }

    /// One gradient-descent step with learning rate `lr` over every weight
    /// and bias the network owns, layer by layer, neuron by neuron, weights
    /// before bias; each stepped node's gradient is reset to the additive
    /// identity.
    pub fn step<T: Num>(&self, alloc: &mut Allocator<T>, lr: T)
        requires
            old(alloc).wf(),
            self.wf(old(alloc)@),
        ensures
            final(alloc).wf(),
            final(alloc)@ == step_layers_spec(
                old(alloc)@,
                self.layers@,
                lr,
                self.layers@.len() as int,
            ),
    {
        let nl = self.layers.len();
        let mut k: usize = 0;
        while k < nl
            invariant
                k <= nl,
                nl == self.layers@.len(),
                alloc.wf(),
                self.wf(old(alloc)@),
                alloc@.perm.len() == old(alloc)@.perm.len(),
                alloc@ == step_layers_spec(old(alloc)@, self.layers@, lr, k as int),
            decreases nl - k,
        {
            let layer = &self.layers[k];
            let ghost m_k = alloc@;
            let count = layer.neurons.len();
            let mut t: usize = 0;
            while t < count
                invariant
                    t <= count,
                    count == layer.neurons@.len(),
                    *layer == self.layers@[k as int],
                    0 <= k < self.layers@.len(),
                    nl == self.layers@.len(),
                    alloc.wf(),
                    self.wf(old(alloc)@),
                    alloc@.perm.len() == old(alloc)@.perm.len(),
                    alloc@ == step_neurons_spec(m_k, layer.neurons@, lr, t as int),
                decreases count - t,
            {
                let neuron = &layer.neurons[t];
                let ghost m_t = alloc@;
                proof {
                    assert(neuron.wf(old(alloc)@));
                }
                let wcount = neuron.weights.len();
                let mut w: usize = 0;
                while w < wcount
                    invariant
                        w <= wcount,
                        wcount == neuron.weights@.len(),
                        neuron.wf(old(alloc)@),
                        alloc.wf(),
                        alloc@.perm.len() == old(alloc)@.perm.len(),
                        alloc@ == step_weights_spec(m_t, neuron.weights@, lr, w as int),
                    decreases wcount - w,
                {
                    let wid = neuron.weights[w];
                    alloc.step(wid, lr);
                    w += 1;
                }
                alloc.step(neuron.bias, lr);
                proof {
                    assert(alloc@ == step_neuron_spec(m_t, *neuron, lr));
                    assert(step_neurons_spec(m_k, layer.neurons@, lr, t as int + 1)
                        == step_neuron_spec(
                        step_neurons_spec(m_k, layer.neurons@, lr, t as int),
                        layer.neurons@[t as int],
                        lr,
                    ));
                }
                t += 1;
            }
            proof {
                assert(step_layers_spec(old(alloc)@, self.layers@, lr, k as int + 1)
                    == step_neurons_spec(
                    step_layers_spec(old(alloc)@, self.layers@, lr, k as int),
                    self.layers@[k as int].neurons@,
                    lr,
                    self.layers@[k as int].neurons@.len() as int,
                ));
            }
            k += 1;
        }
    }
}

} // verus!
