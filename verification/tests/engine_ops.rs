use autograd::allocator::Allocator;
use autograd::engine::{Op, Value};
use autograd::operators::Num;

#[derive(Clone, Copy, PartialEq, Debug)]
struct F64(f64);

impl Num for F64 {
    fn zero_spec() -> Self {
        F64(0.0)
    }
    fn one_spec() -> Self {
        F64(1.0)
    }
    fn add_spec(self, other: Self) -> Self {
        F64(self.0 + other.0)
    }
    fn sub_spec(self, other: Self) -> Self {
        F64(self.0 - other.0)
    }
    fn mul_spec(self, other: Self) -> Self {
        F64(self.0 * other.0)
    }
    fn div_spec(self, other: Self) -> Self {
        F64(self.0 / other.0)
    }
    fn neg_spec(self) -> Self {
        F64(-self.0)
    }
    fn pow_spec(self, other: Self) -> Self {
        F64(self.0.powf(other.0))
    }
    fn exp_spec(self) -> Self {
        F64(self.0.exp())
    }
    fn ln_spec(self) -> Self {
        F64(self.0.ln())
    }
    fn tanh_spec(self) -> Self {
        F64(self.0.tanh())
    }
    fn gt_spec(self, other: Self) -> bool {
        self.0 > other.0
    }
    fn zero() -> Self {
        F64(0.0)
    }
    fn one() -> Self {
        F64(1.0)
    }
    fn add(self, other: Self) -> Self {
        F64(self.0 + other.0)
    }
    fn sub(self, other: Self) -> Self {
        F64(self.0 - other.0)
    }
    fn mul(self, other: Self) -> Self {
        F64(self.0 * other.0)
    }
    fn div(self, other: Self) -> Self {
        F64(self.0 / other.0)
    }
    fn neg(self) -> Self {
        F64(-self.0)
    }
    fn pow(self, other: Self) -> Self {
        F64(self.0.powf(other.0))
    }
    fn exp(self) -> Self {
        F64(self.0.exp())
    }
    fn ln(self) -> Self {
        F64(self.0.ln())
    }
    fn tanh(self) -> Self {
        F64(self.0.tanh())
    }
    fn gt(self, other: Self) -> bool {
        self.0 > other.0
    }
}

#[test]
fn test_value_creation() {
    let mut allocator: Allocator<F64> = Allocator::new();
    let value = allocator.alloc_perm(F64(3.0));
    assert_eq!(allocator.get(value).data, F64(3.0));
}

#[test]
fn test_backward_and_rezero() {
    let mut allocator: Allocator<F64> = Allocator::new();
    let a = allocator.alloc_perm(F64(3.0));
    let b = allocator.alloc_perm(F64(2.0));
    let c = allocator.pow(a, b);
    let d = allocator.add(c, c);
    let e = allocator.mul(d, a);
    let f = allocator.sub(e, d);
    let g = allocator.div(f, c);
    let h = allocator.exp(g);
    assert_eq!(allocator.get(h).data, F64(54.598150033144236));

    allocator.backward();
    assert_eq!(allocator.get(a).grad, F64(109.1963000662885));
    assert_eq!(allocator.get(b).grad, F64(3.512749415084566e-14));
    assert_eq!(allocator.get(c).grad, F64(3.552713678800501e-15));
    assert_eq!(allocator.get(d).grad, F64(12.13292222958761));
    assert_eq!(allocator.get(e).grad, F64(6.066461114793804));
    assert_eq!(allocator.get(f).grad, F64(6.066461114793804));
    assert_eq!(allocator.get(g).grad, F64(54.598150033144236));
    assert_eq!(allocator.get(h).grad, F64(1.0));

    allocator.zero_grads();
    assert_eq!(allocator.get(a).grad, F64(0.0));
    assert_eq!(allocator.get(b).grad, F64(0.0));
    assert_eq!(allocator.get(c).grad, F64(0.0));
    assert_eq!(allocator.get(d).grad, F64(0.0));
    assert_eq!(allocator.get(e).grad, F64(0.0));
    assert_eq!(allocator.get(f).grad, F64(0.0));
    assert_eq!(allocator.get(g).grad, F64(0.0));
    assert_eq!(allocator.get(h).grad, F64(0.0));
}

#[test]
fn test_addition() {
    let mut allocator: Allocator<F64> = Allocator::new();
    let a = allocator.alloc_perm(F64(3.0));
    let b = allocator.alloc_perm(F64(4.0));
    let c = allocator.add(a, b);
    assert_eq!(allocator.get(c).data, F64(7.0));

    allocator.backward();
    assert_eq!(allocator.get(a).grad, F64(1.0));
    assert_eq!(allocator.get(b).grad, F64(1.0));
    assert_eq!(allocator.get(c).grad, F64(1.0));
}

#[test]
fn test_multiplication() {
    let mut allocator: Allocator<F64> = Allocator::new();
    let a = allocator.alloc_perm(F64(3.0));
    let b = allocator.alloc_perm(F64(4.0));
    let c = allocator.mul(a, b);
    assert_eq!(allocator.get(c).data, F64(12.0));

    allocator.backward();
    assert_eq!(allocator.get(a).grad, F64(4.0));
    assert_eq!(allocator.get(b).grad, F64(3.0));
    assert_eq!(allocator.get(c).grad, F64(1.0));
}

#[test]
fn test_negation() {
    let mut allocator: Allocator<F64> = Allocator::new();
    let a = allocator.alloc_perm(F64(3.0));
    let b = allocator.neg(a);
    assert_eq!(allocator.get(b).data, F64(-3.0));

    allocator.backward();
    assert_eq!(allocator.get(a).grad, F64(-1.0));
    assert_eq!(allocator.get(b).grad, F64(1.0));
}

#[test]
fn test_subtraction() {
    let mut allocator: Allocator<F64> = Allocator::new();
    let a = allocator.alloc_perm(F64(3.0));
    let b = allocator.alloc_perm(F64(4.0));
    let c = allocator.sub(a, b);
    assert_eq!(allocator.get(c).data, F64(-1.0));

    allocator.backward();
    assert_eq!(allocator.get(a).grad, F64(1.0));
    assert_eq!(allocator.get(b).grad, F64(-1.0));
    assert_eq!(allocator.get(c).grad, F64(1.0));
}

#[test]
fn test_pow() {
    let mut allocator: Allocator<F64> = Allocator::new();
    let a = allocator.alloc_perm(F64(3.0));
    let b = allocator.alloc_perm(F64(4.0));
    let c = allocator.pow(a, b);
    assert_eq!(allocator.get(c).data, F64(81.0));

    allocator.backward();
    assert_eq!(allocator.get(a).grad, F64(108.0));
    assert_eq!(allocator.get(b).grad, F64(88.9875953821169));
    assert_eq!(allocator.get(c).grad, F64(1.0));
}

#[test]
fn test_exp() {
    let mut allocator: Allocator<F64> = Allocator::new();
    let a = allocator.alloc_perm(F64(3.0));
    let b = allocator.exp(a);
    assert_eq!(allocator.get(b).data, F64(20.085536923187668));

    allocator.backward();
    assert_eq!(allocator.get(a).grad, F64(20.085536923187668));
    assert_eq!(allocator.get(b).grad, F64(1.0));
}

#[test]
fn test_division() {
    let mut allocator: Allocator<F64> = Allocator::new();
    let a = allocator.alloc_perm(F64(3.0));
    let b = allocator.alloc_perm(F64(4.0));
    let c = allocator.div(a, b);
    assert_eq!(allocator.get(c).data, F64(0.75));

    allocator.backward();
    assert_eq!(allocator.get(a).grad, F64(0.25));
    assert_eq!(allocator.get(b).grad, F64(-0.1875));
    assert_eq!(allocator.get(c).grad, F64(1.0));
}

#[test]
fn test_tanh() {
    let mut allocator: Allocator<F64> = Allocator::new();
    let a = allocator.alloc_perm(F64(3.0));
    let b = allocator.tanh(a);
    assert_eq!(allocator.get(b).data, F64(0.9950547536867305));

    allocator.backward();
    assert_eq!(allocator.get(a).grad, F64(0.009866037165440211));
    assert_eq!(allocator.get(b).grad, F64(1.0));
}

#[test]
fn test_relu() {
    let mut allocator: Allocator<F64> = Allocator::new();
    let a = allocator.alloc_perm(F64(3.0));
    let b = allocator.relu(a);
    assert_eq!(allocator.get(b).data, F64(3.0));

    allocator.backward();
    assert_eq!(allocator.get(a).grad, F64(1.0));
    assert_eq!(allocator.get(b).grad, F64(1.0));

    let c = allocator.alloc_perm(F64(-3.0));
    let d = allocator.relu(c);
    assert_eq!(allocator.get(d).data, F64(0.0));

    allocator.backward();
    assert_eq!(allocator.get(c).grad, F64(0.0));
    assert_eq!(allocator.get(d).grad, F64(1.0));
}

#[test]
fn test_ln() {
    let mut allocator: Allocator<F64> = Allocator::new();
    let a = allocator.alloc_perm(F64(3.0));
    let b = allocator.ln(a);
    assert_eq!(allocator.get(b).data, F64(3.0_f64.ln()));

    allocator.backward();
    assert_eq!(allocator.get(a).grad, F64(1.0 / 3.0));
    assert_eq!(allocator.get(b).grad, F64(1.0));
}

#[test]
fn test_fanout_accumulation() {
    // One leaf feeding two products: after one combined backward pass its
    // gradient is the sum of both contributions, not the last one alone.
    let mut allocator: Allocator<F64> = Allocator::new();
    let a = allocator.alloc_perm(F64(3.0));
    let c1 = allocator.alloc_perm(F64(5.0));
    let c2 = allocator.alloc_perm(F64(7.0));
    let t0 = allocator.mul(a, c1);
    let t1 = allocator.mul(a, c2);
    let root = allocator.add(t0, t1);
    assert_eq!(allocator.get(root).data, F64(36.0));

    allocator.backward();
    assert_eq!(allocator.get(a).grad, F64(12.0));
    assert_eq!(allocator.get(c1).grad, F64(3.0));
    assert_eq!(allocator.get(c2).grad, F64(3.0));
}

#[test]
fn test_reset_reproducibility() {
    // Resetting the gradients and re-running backward from the same root
    // with the same leaf values reproduces the exact same gradients.
    let mut allocator: Allocator<F64> = Allocator::new();
    let a = allocator.alloc_perm(F64(3.0));
    let b = allocator.alloc_perm(F64(2.0));
    let c = allocator.pow(a, b);
    let d = allocator.mul(c, a);
    let _e = allocator.div(d, b);

    allocator.backward();
    let ga = allocator.get(a).grad;
    let gb = allocator.get(b).grad;

    allocator.zero_grads();
    allocator.backward();
    assert_eq!(allocator.get(a).grad, ga);
    assert_eq!(allocator.get(b).grad, gb);
}

#[test]
fn test_clear_temps_keeps_leaves() {
    // Clearing the per-iteration pool keeps the persistent leaves' data and
    // (un-reset) gradients; the discarded derived nodes are gone.
    let mut allocator: Allocator<F64> = Allocator::new();
    let a = allocator.alloc_perm(F64(3.0));
    let b = allocator.alloc_perm(F64(4.0));
    let c = allocator.mul(a, b);
    assert_eq!(allocator.get(c).data, F64(12.0));

    allocator.backward();
    allocator.clear_temps();
    assert_eq!(allocator.get(a).data, F64(3.0));
    assert_eq!(allocator.get(b).data, F64(4.0));
    assert_eq!(allocator.get(a).grad, F64(4.0));
    assert_eq!(allocator.get(b).grad, F64(3.0));

    // the next iteration starts from an empty per-iteration pool
    let c2 = allocator.mul(a, b);
    assert_eq!(allocator.get(c2).data, F64(12.0));
}

#[test]
fn test_backward_on_empty_pool() {
    // Without any temporary node a backward pass does nothing.
    let mut allocator: Allocator<F64> = Allocator::new();
    let a = allocator.alloc_perm(F64(3.0));
    allocator.backward();
    assert_eq!(allocator.get(a).grad, F64(0.0));
    assert_eq!(allocator.get(a).data, F64(3.0));
}

#[test]
fn test_relu_at_zero() {
    let mut allocator: Allocator<F64> = Allocator::new();
    let a = allocator.alloc_perm(F64(0.0));
    let b = allocator.relu(a);
    assert_eq!(allocator.get(b).data, F64(0.0));

    allocator.backward();
    assert_eq!(allocator.get(a).grad, F64(0.0));
}

#[test]
fn test_alloc_one_hot() {
    let mut allocator: Allocator<F64> = Allocator::new();
    let ids = allocator.alloc_one_hot(1, 3, false);
    assert_eq!(ids.len(), 3);
    assert_eq!(allocator.get(ids[0]).data, F64(0.0));
    assert_eq!(allocator.get(ids[1]).data, F64(1.0));
    assert_eq!(allocator.get(ids[2]).data, F64(0.0));

    let temps = allocator.alloc_one_hot(0, 2, true);
    assert_eq!(temps.len(), 2);
    assert_eq!(allocator.get(temps[0]).data, F64(1.0));
    assert_eq!(allocator.get(temps[1]).data, F64(0.0));
    allocator.clear_temps();
    assert_eq!(allocator.get(ids[1]).data, F64(1.0));
}

#[test]
fn test_alloc_t_leaf() {
    let mut allocator: Allocator<F64> = Allocator::new();
    let t = allocator.alloc_t(F64(2.5));
    assert_eq!(allocator.get(t).data, F64(2.5));
    assert_eq!(allocator.get(t).grad, F64(0.0));
}

#[test]
fn test_value_struct_behaviour() {
    let mut v: Value<F64> = Value::from(F64(2.0));
    assert_eq!(v.data, F64(2.0));
    assert_eq!(v.grad, F64(0.0));

    v.add_grad(F64(0.5));
    v.add_grad(F64(0.25));
    assert_eq!(v.grad, F64(0.75));

    // one descent step: data -= lr * grad, then the gradient is cleared
    v.step(F64(2.0));
    assert_eq!(v.data, F64(0.5));
    assert_eq!(v.grad, F64(0.0));

    v.set_data(F64(9.0));
    assert_eq!(v.data, F64(9.0));

    v.set_grad(F64(1.5));
    assert_eq!(v.grad, F64(1.5));

    let w: Value<F64> = Value::new(F64(1.0), Op::Add, Default::default(), Default::default());
    assert_eq!(w.grad, F64(0.0));
    assert_eq!(w.data, F64(1.0));
}

#[test]
fn test_get_mut_and_step() {
    let mut allocator: Allocator<F64> = Allocator::new();
    let a = allocator.alloc_perm(F64(10.0));
    allocator.get_mut(a).add_grad(F64(4.0));
    assert_eq!(allocator.get(a).grad, F64(4.0));

    // data -= lr * grad; the node's gradient is reset as a side effect
    allocator.step(a, F64(0.5));
    assert_eq!(allocator.get(a).data, F64(8.0));
    assert_eq!(allocator.get(a).grad, F64(0.0));

    allocator.get_mut(a).set_data(F64(1.0));
    assert_eq!(allocator.get(a).data, F64(1.0));
}
