use vstd::prelude::*;

use crate::allocator::{
    backward_spec, back_rec, graph_wf, lemma_rule_effect_structure, node_at, node_wf,
    parents_valid, rule_effect, same_structure, seeded, zero_all, GraphModel,
};
use crate::engine::{derived_model, leaf_model, Op};
use crate::operators::Num;

verus! {

/// Whether every gradient of `m`, in both pools, is the additive identity —
/// the state of a freshly built graph, or of any graph right after a reset.
pub open spec fn all_grads_zero<T: Num>(m: GraphModel<T>) -> bool {
    &&& forall|j: int|
        0 <= j < m.perm.len() ==> (#[trigger] m.perm[j]).grad == T::zero_spec()
    &&& forall|i: int|
        0 <= i < m.temp.len() ==> (#[trigger] m.temp[i]).grad == T::zero_spec()
}

/// Structural agreement is transitive.
proof fn lemma_same_structure_trans<T>(a: GraphModel<T>, b: GraphModel<T>, c: GraphModel<T>)
    requires
        same_structure(a, b),
        same_structure(b, c),
    ensures
        same_structure(a, c),
{
    assert forall|j: int| 0 <= j < a.perm.len() implies {
        &&& (#[trigger] a.perm[j]).data == c.perm[j].data
        &&& a.perm[j].op == c.perm[j].op
        &&& a.perm[j].p0 == c.perm[j].p0
        &&& a.perm[j].p1 == c.perm[j].p1
    } by {
        assert(a.perm[j].data == b.perm[j].data);
        assert(b.perm[j].data == c.perm[j].data);
    }
    assert forall|i: int| 0 <= i < a.temp.len() implies {
        &&& (#[trigger] a.temp[i]).data == c.temp[i].data
        &&& a.temp[i].op == c.temp[i].op
        &&& a.temp[i].p0 == c.temp[i].p0
        &&& a.temp[i].p1 == c.temp[i].p1
    } by {
        assert(a.temp[i].data == b.temp[i].data);
        assert(b.temp[i].data == c.temp[i].data);
    }
}

/// Running the backward rules of the nodes `k - 1`, ..., `0` only
/// accumulates into gradients: structure and data are kept.
proof fn lemma_back_rec_structure<T: Num>(m: GraphModel<T>, k: nat)
    requires
        graph_wf(m),
        k <= m.temp.len(),
    ensures
        graph_wf(back_rec(m, k)),
        same_structure(back_rec(m, k), m),
    decreases k,
{
    if k == 0 {
    } else {
        let n = m.temp[k - 1];
        assert(node_wf(m, n, k - 1));
        assert(parents_valid(m, n));
        lemma_rule_effect_structure(m, n);
        let m2 = rule_effect(m, n);
        lemma_back_rec_structure(m2, (k - 1) as nat);
        lemma_same_structure_trans(back_rec(m2, (k - 1) as nat), m2, m);
        assert(back_rec(m, k) == back_rec(m2, (k - 1) as nat));
    }
}

/// A whole backward pass never mutates data, operations or parent links:
/// only gradients change.
pub proof fn lemma_backward_preserves_structure<T: Num>(m: GraphModel<T>)
    requires
        graph_wf(m),
    ensures
        graph_wf(backward_spec(m)),
        same_structure(backward_spec(m), m),
{
    if m.temp.len() == 0 {
    } else {
        let s = seeded(m);
        assert(same_structure(s, m));
        assert(graph_wf(s)) by {
            assert forall|i: int| 0 <= i < s.temp.len() implies node_wf(
                s,
                #[trigger] s.temp[i],
                i,
            ) by {
                assert(node_wf(m, m.temp[i], i));
            }
        }
        lemma_back_rec_structure(s, m.temp.len());
        lemma_same_structure_trans(back_rec(s, m.temp.len()), s, m);
    }
}

/// Reset law: on a graph whose gradients all start at the additive
/// identity, resetting every gradient after a backward pass and running the
/// same pass again reproduces exactly the same gradients — the pass is
/// deterministic and leaks nothing between runs.
pub proof fn lemma_reset_determinism<T: Num>(m: GraphModel<T>)
    requires
        graph_wf(m),
        all_grads_zero(m),
    ensures
        backward_spec(zero_all(backward_spec(m))) == backward_spec(m),
{
    let m1 = backward_spec(m);
    lemma_backward_preserves_structure(m);
    assert(zero_all(m1).perm =~= m.perm) by {
        assert forall|j: int| 0 <= j < m.perm.len() implies zero_all(m1).perm[j] == m.perm[j] by {
            assert(m1.perm[j].data == m.perm[j].data);
            assert(m.perm[j].grad == T::zero_spec());
        }
    }
    assert(zero_all(m1).temp =~= m.temp) by {
        assert forall|i: int| 0 <= i < m.temp.len() implies zero_all(m1).temp[i] == m.temp[i] by {
            assert(m1.temp[i].data == m.temp[i].data);
            assert(m.temp[i].grad == T::zero_spec());
        }
    }
    assert(zero_all(m1) =~= m);
}

/// Gradients of addition: leaves holding `x` and `y` are combined by `add`
/// and a backward pass runs from the sum. The sum node carries `x + y` and
/// the seed gradient `1`, and each addend's gradient accumulates exactly
/// one unscaled seed contribution: `0 + 1`.
pub proof fn lemma_add_gradients<T: Num>(x: T, y: T)
    ensures
        ({
            let m = (GraphModel::<T> {
                perm: seq![leaf_model(x), leaf_model(y)],
                temp: seq![derived_model(x.add_spec(y), Op::Add, 0, 1)],
            });
            let m1 = backward_spec(m);
            &&& node_at(m1, -1).data == x.add_spec(y)
            &&& node_at(m1, -1).grad == T::one_spec()
            &&& node_at(m1, 0).grad == T::zero_spec().add_spec(T::one_spec())
            &&& node_at(m1, 1).grad == T::zero_spec().add_spec(T::one_spec())
        }),
{
    let m = (GraphModel::<T> {
        perm: seq![leaf_model(x), leaf_model(y)],
        temp: seq![derived_model(x.add_spec(y), Op::Add, 0, 1)],
    });
    let s = seeded(m);
    assert(back_rec(s, 1) == back_rec(rule_effect(s, s.temp[0]), 0));
    assert(backward_spec(m) == rule_effect(s, s.temp[0]));
}

/// Gradients of multiplication: leaves holding `x` and `y` are combined by
/// `mul` and a backward pass runs from the product. The product node
/// carries `x * y`, and each factor's gradient accumulates one seed
/// contribution scaled by the other factor: `0 + 1*y` and `0 + 1*x`.
pub proof fn lemma_mul_gradients<T: Num>(x: T, y: T)
    ensures
        ({
            let m = (GraphModel::<T> {
                perm: seq![leaf_model(x), leaf_model(y)],
                temp: seq![derived_model(x.mul_spec(y), Op::Mul, 0, 1)],
            });
            let m1 = backward_spec(m);
            &&& node_at(m1, -1).data == x.mul_spec(y)
            &&& node_at(m1, -1).grad == T::one_spec()
            &&& node_at(m1, 0).grad == T::zero_spec().add_spec(T::one_spec().mul_spec(y))
            &&& node_at(m1, 1).grad == T::zero_spec().add_spec(T::one_spec().mul_spec(x))
        }),
{
    let m = (GraphModel::<T> {
        perm: seq![leaf_model(x), leaf_model(y)],
        temp: seq![derived_model(x.mul_spec(y), Op::Mul, 0, 1)],
    });
    let s = seeded(m);
    assert(back_rec(s, 1) == back_rec(rule_effect(s, s.temp[0]), 0));
    assert(backward_spec(m) == rule_effect(s, s.temp[0]));
}

/// Gradients of subtraction, built as `x + (-y)`: the backward pass leaves
/// the minuend's gradient at one positive seed contribution `0 + 1` and the
/// subtrahend's at the negation of that contribution, `0 + (-(0 + 1))`.
pub proof fn lemma_sub_gradients<T: Num>(x: T, y: T)
    ensures
        ({
            let ny = y.mul_spec(T::one_spec().neg_spec());
            let m = (GraphModel::<T> {
                perm: seq![leaf_model(x), leaf_model(y)],
                temp: seq![
                    derived_model(ny, Op::Neg, 1, 0),
                    derived_model(x.add_spec(ny), Op::Add, 0, -1),
                ],
            });
            let m1 = backward_spec(m);
            &&& node_at(m1, -2).data == x.add_spec(ny)
            &&& node_at(m1, -2).grad == T::one_spec()
            &&& node_at(m1, 0).grad == T::zero_spec().add_spec(T::one_spec())
            &&& node_at(m1, 1).grad == T::zero_spec().add_spec(
                T::zero_spec().add_spec(T::one_spec()).neg_spec(),
            )
        }),
{
    let ny = y.mul_spec(T::one_spec().neg_spec());
    let m = (GraphModel::<T> {
        perm: seq![leaf_model(x), leaf_model(y)],
        temp: seq![
            derived_model(ny, Op::Neg, 1, 0),
            derived_model(x.add_spec(ny), Op::Add, 0, -1),
        ],
    });
    let s = seeded(m);
    let m_a = rule_effect(s, s.temp[1]);
    assert(back_rec(s, 2) == back_rec(m_a, 1));
    let m_b = rule_effect(m_a, m_a.temp[0]);
    assert(back_rec(m_a, 1) == back_rec(m_b, 0));
    assert(backward_spec(m) == m_b);
}

/// Gradients of division: leaves holding `x` and `y` are combined by `div`
/// and a backward pass runs from the quotient. The numerator's gradient
/// accumulates `0 + 1*1/y`; the denominator's accumulates
/// `0 + 1*(-(x/y))*1/y`, the result-based formulation of `-x/y^2`.
pub proof fn lemma_div_gradients<T: Num>(x: T, y: T)
    ensures
        ({
            let q = x.div_spec(y);
            let m = (GraphModel::<T> {
                perm: seq![leaf_model(x), leaf_model(y)],
                temp: seq![derived_model(q, Op::Div, 0, 1)],
            });
            let m1 = backward_spec(m);
            &&& node_at(m1, -1).data == q
            &&& node_at(m1, -1).grad == T::one_spec()
            &&& node_at(m1, 0).grad == T::zero_spec().add_spec(
                T::one_spec().mul_spec(T::one_spec()).div_spec(y),
            )
            &&& node_at(m1, 1).grad == T::zero_spec().add_spec(
                T::one_spec().mul_spec(q.neg_spec()).mul_spec(T::one_spec()).div_spec(y),
            )
        }),
{
    let q = x.div_spec(y);
    let m = (GraphModel::<T> {
        perm: seq![leaf_model(x), leaf_model(y)],
        temp: seq![derived_model(q, Op::Div, 0, 1)],
    });
    let s = seeded(m);
    assert(back_rec(s, 1) == back_rec(rule_effect(s, s.temp[0]), 0));
    assert(backward_spec(m) == rule_effect(s, s.temp[0]));
}

/// Gradients of the power operator: leaves holding `x` and `y` are combined
/// by `pow` and a backward pass runs from `x^y`. The base's gradient
/// accumulates `0 + ((1*y)*x^y)/x` — the result-based formulation of
/// `y*x^(y-1)` — and the exponent's accumulates `0 + (1*x^y)*ln(x)`; the
/// logarithm makes the exponent's rule meaningful only for a positive base.
pub proof fn lemma_pow_gradients<T: Num>(x: T, y: T)
    ensures
        ({
            let p = x.pow_spec(y);
            let m = (GraphModel::<T> {
                perm: seq![leaf_model(x), leaf_model(y)],
                temp: seq![derived_model(p, Op::Pow, 0, 1)],
            });
            let m1 = backward_spec(m);
            &&& node_at(m1, -1).data == p
            &&& node_at(m1, -1).grad == T::one_spec()
            &&& node_at(m1, 0).grad == T::zero_spec().add_spec(
                T::one_spec().mul_spec(y).mul_spec(p).div_spec(x),
            )
            &&& node_at(m1, 1).grad == T::zero_spec().add_spec(
                T::one_spec().mul_spec(p).mul_spec(x.ln_spec()),
            )
        }),
{
    let p = x.pow_spec(y);
    let m = (GraphModel::<T> {
        perm: seq![leaf_model(x), leaf_model(y)],
        temp: seq![derived_model(p, Op::Pow, 0, 1)],
    });
    let s = seeded(m);
    assert(back_rec(s, 1) == back_rec(rule_effect(s, s.temp[0]), 0));
    assert(backward_spec(m) == rule_effect(s, s.temp[0]));
}

/// Fan-out law: one leaf feeds two different downstream products, whose
/// results are added into a single root. After one combined backward pass
/// the shared leaf's gradient holds the sum of the two independent
/// contributions — `0 + g*c2 + g*c1` with `g = 0 + 1` the gradient arriving
/// at each product — not merely the last one applied.
pub proof fn lemma_fan_out_accumulates<T: Num>(x: T, c1: T, c2: T)
    ensures
        ({
            let g = T::zero_spec().add_spec(T::one_spec());
            let m = (GraphModel::<T> {
                perm: seq![leaf_model(x), leaf_model(c1), leaf_model(c2)],
                temp: seq![
                    derived_model(x.mul_spec(c1), Op::Mul, 0, 1),
                    derived_model(x.mul_spec(c2), Op::Mul, 0, 2),
                    derived_model(x.mul_spec(c1).add_spec(x.mul_spec(c2)), Op::Add, -1, -2),
                ],
            });
            let m1 = backward_spec(m);
            node_at(m1, 0).grad == T::zero_spec().add_spec(g.mul_spec(c2)).add_spec(
                g.mul_spec(c1),
            )
        }),
{
    let m = (GraphModel::<T> {
        perm: seq![leaf_model(x), leaf_model(c1), leaf_model(c2)],
        temp: seq![
            derived_model(x.mul_spec(c1), Op::Mul, 0, 1),
            derived_model(x.mul_spec(c2), Op::Mul, 0, 2),
            derived_model(x.mul_spec(c1).add_spec(x.mul_spec(c2)), Op::Add, -1, -2),
        ],
    });
    let s = seeded(m);
    let m_a = rule_effect(s, s.temp[2]);
    assert(back_rec(s, 3) == back_rec(m_a, 2));
    let m_b = rule_effect(m_a, m_a.temp[1]);
    assert(back_rec(m_a, 2) == back_rec(m_b, 1));
    let m_c = rule_effect(m_b, m_b.temp[0]);
    assert(back_rec(m_b, 1) == back_rec(m_c, 0));
    assert(backward_spec(m) == m_c);
}

} // verus!
