use autograd::allocator::{Allocator, ValueId};
use autograd::nn::{Activation, Layer, Neuron, MLP};
use autograd::operators::Num;

use rand::rngs::StdRng;
use rand::{Rng, SeedableRng};

#[derive(Clone, Copy, PartialEq, Debug)]
struct F64(f64);

impl Num for F64 {
    fn zero_spec() -> Self {
        F64(0.0)
    }
    fn one_spec() -> Self {
        F64(1.0)
    }
    fn add_spec(self, other: Self) -> Self {
        F64(self.0 + other.0)
    }
    fn sub_spec(self, other: Self) -> Self {
        F64(self.0 - other.0)
    }
    fn mul_spec(self, other: Self) -> Self {
        F64(self.0 * other.0)
    }
    fn div_spec(self, other: Self) -> Self {
        F64(self.0 / other.0)
    }
    fn neg_spec(self) -> Self {
        F64(-self.0)
    }
    fn pow_spec(self, other: Self) -> Self {
        F64(self.0.powf(other.0))
    }
    fn exp_spec(self) -> Self {
        F64(self.0.exp())
    }
    fn ln_spec(self) -> Self {
        F64(self.0.ln())
    }
    fn tanh_spec(self) -> Self {
        F64(self.0.tanh())
    }
    fn gt_spec(self, other: Self) -> bool {
        self.0 > other.0
    }
    fn zero() -> Self {
        F64(0.0)
    }
    fn one() -> Self {
        F64(1.0)
    }
    fn add(self, other: Self) -> Self {
        F64(self.0 + other.0)
    }
    fn sub(self, other: Self) -> Self {
        F64(self.0 - other.0)
    }
    fn mul(self, other: Self) -> Self {
        F64(self.0 * other.0)
    }
    fn div(self, other: Self) -> Self {
        F64(self.0 / other.0)
    }
    fn neg(self) -> Self {
        F64(-self.0)
    }
    fn pow(self, other: Self) -> Self {
        F64(self.0.powf(other.0))
    }
    fn exp(self) -> Self {
        F64(self.0.exp())
    }
    fn ln(self) -> Self {
        F64(self.0.ln())
    }
    fn tanh(self) -> Self {
        F64(self.0.tanh())
    }
    fn gt(self, other: Self) -> bool {
        self.0 > other.0
    }
}

#[test]
fn test_neuron() {
    let mut allocator: Allocator<F64> = Allocator::new();
    let neuron = Neuron::new(
        &mut allocator,
        &vec![F64(0.5), F64(-0.25)],
        F64(0.125),
        Some(Activation::Tanh),
    );
    let inputs = vec![allocator.alloc_perm(F64(1.0)), allocator.alloc_perm(F64(2.0))];
    let output = neuron.forward(&mut allocator, &inputs);

    let weights = neuron
        .weights
        .iter()
        .map(|w| allocator.get(*w).data.0)
        .collect::<Vec<_>>();
    let bias = allocator.get(neuron.bias).data.0;

    assert_eq!(weights.len(), 2);
    assert_eq!(
        allocator.get(output).data.0,
        (weights[0] * allocator.get(inputs[0]).data.0
            + weights[1] * allocator.get(inputs[1]).data.0
            + bias)
            .tanh()
    );
}

#[test]
fn test_layer() {
    let mut allocator: Allocator<F64> = Allocator::new();
    let inits = vec![
        F64(0.5),
        F64(-0.25),
        F64(0.125),
        F64(0.75),
        F64(0.5),
        F64(-0.5),
        F64(-0.125),
        F64(0.25),
        F64(1.0),
    ];
    let layer = Layer::new(&mut allocator, 2, 3, &inits, Some(Activation::Tanh));
    let inputs = vec![allocator.alloc_perm(F64(1.0)), allocator.alloc_perm(F64(2.0))];
    let outputs = layer.forward(&mut allocator, &inputs);
    assert_eq!(outputs.len(), 3);

    for (neuron, output) in layer.neurons.iter().zip(outputs.iter()) {
        let weights = neuron
            .weights
            .iter()
            .map(|w| allocator.get(*w).data.0)
            .collect::<Vec<_>>();
        let bias = allocator.get(neuron.bias).data.0;

        assert_eq!(
            allocator.get(*output).data.0,
            (weights[0] * allocator.get(inputs[0]).data.0
                + weights[1] * allocator.get(inputs[1]).data.0
                + bias)
                .tanh()
        );
    }
}

#[test]
fn test_mlp() {
    let mut allocator: Allocator<F64> = Allocator::new();
    let layer_inits = vec![
        vec![
            F64(0.5),
            F64(-0.25),
            F64(0.125),
            F64(0.75),
            F64(0.5),
            F64(-0.5),
            F64(-0.125),
            F64(0.25),
            F64(1.0),
        ],
        vec![F64(0.5), F64(-0.5), F64(0.25), F64(0.0)],
    ];
    let mlp = MLP::new(
        &mut allocator,
        &vec![2, 3, 1],
        &layer_inits,
        Some(Activation::Tanh),
    );
    let inputs = vec![allocator.alloc_perm(F64(1.0)), allocator.alloc_perm(F64(2.0))];
    let outputs = mlp.forward(&mut allocator, &inputs);
    assert_eq!(outputs.len(), 1);

    for (layer_index, layer) in mlp.layers.iter().enumerate() {
        let layer_inputs = if layer_index == 0 {
            inputs.clone()
        } else {
            mlp.layers[layer_index - 1].forward(&mut allocator, &inputs)
        };

        let layer_outputs = layer.forward(&mut allocator, &layer_inputs);
        assert_eq!(layer_outputs.len(), layer.neurons.len());

        for (neuron, output) in layer.neurons.iter().zip(layer_outputs.iter()) {
            let weights = neuron
                .weights
                .iter()
                .map(|w| allocator.get(*w).data.0)
                .collect::<Vec<_>>();
            let bias = allocator.get(neuron.bias).data.0;

            let expected_output = weights
                .iter()
                .zip(layer_inputs.iter())
                .map(|(w, i)| *w * allocator.get(*i).data.0)
                .sum::<f64>()
                + bias;

            assert!(allocator.get(*output).data.0 - expected_output.tanh() <= f64::EPSILON);
        }
    }
}

#[test]
fn test_mlp_training() {
    let mut rng = StdRng::seed_from_u64(42);
    let mut allocator: Allocator<F64> = Allocator::new();
    let sizes: Vec<usize> = vec![2, 3, 1];
    let mut layer_inits: Vec<Vec<F64>> = Vec::new();
    for w in sizes.windows(2) {
        let count = w[1] * (w[0] + 1);
        let mut inits: Vec<F64> = Vec::new();
        for _ in 0..count {
            inits.push(F64(rng.gen_range(-1.0..1.0)));
        }
        layer_inits.push(inits);
    }
    let mlp = MLP::new(&mut allocator, &sizes, &layer_inits, Some(Activation::Tanh));

    let inputs = vec![
        vec![allocator.alloc_perm(F64(0.0)), allocator.alloc_perm(F64(0.0))],
        vec![allocator.alloc_perm(F64(0.0)), allocator.alloc_perm(F64(1.0))],
        vec![allocator.alloc_perm(F64(1.0)), allocator.alloc_perm(F64(0.0))],
        vec![allocator.alloc_perm(F64(1.0)), allocator.alloc_perm(F64(1.0))],
    ];
    let targets = vec![
        allocator.alloc_perm(F64(0.0)),
        allocator.alloc_perm(F64(1.0)),
        allocator.alloc_perm(F64(1.0)),
        allocator.alloc_perm(F64(0.0)),
    ];

    for _ in 0..2000 {
        let mut loss = allocator.alloc_t(F64(0.0));
        for (input, target) in inputs.iter().zip(targets.iter()) {
            let output = mlp.forward(&mut allocator, input)[0];
            let diff = allocator.sub(output, *target);
            let sq = allocator.mul(diff, diff);
            loss = allocator.add(loss, sq);
        }
        allocator.backward();
        mlp.step(&mut allocator, F64(0.15));
        allocator.clear_temps();
    }

    for (input, target) in inputs.iter().zip(targets.iter()) {
        let output = mlp.forward(&mut allocator, input);
        let diff: f64 = allocator.get(output[0]).data.0 - allocator.get(*target).data.0;
        assert!(diff.abs() < 0.3);
    }
}

#[test]
fn test_neuron_relu_activation() {
    let mut allocator: Allocator<F64> = Allocator::new();
    let neuron = Neuron::new(
        &mut allocator,
        &vec![F64(1.0), F64(1.0)],
        F64(-3.0),
        Some(Activation::Relu),
    );
    let inputs = vec![allocator.alloc_perm(F64(1.0)), allocator.alloc_perm(F64(1.0))];
    // 1 + 1 - 3 < 0: the rectifier clips the sum to zero
    let out = neuron.forward(&mut allocator, &inputs);
    assert_eq!(allocator.get(out).data, F64(0.0));

    let neuron2 = Neuron::new(&mut allocator, &vec![F64(2.0)], F64(0.5), None);
    let inputs2: Vec<ValueId> = vec![allocator.alloc_perm(F64(3.0))];
    // no activation: the raw weighted sum comes back
    let out2 = neuron2.forward(&mut allocator, &inputs2);
    assert_eq!(allocator.get(out2).data, F64(6.5));
}

#[test]
fn test_mlp_step_updates_parameters() {
    let mut allocator: Allocator<F64> = Allocator::new();
    let layer_inits = vec![vec![F64(0.5), F64(0.25)]];
    let mlp = MLP::new(&mut allocator, &vec![1, 1], &layer_inits, None);
    let x = allocator.alloc_perm(F64(2.0));
    let out = mlp.forward(&mut allocator, &vec![x]);
    // out = 0.5 * 2 + 0.25
    assert_eq!(allocator.get(out[0]).data, F64(1.25));

    allocator.backward();
    // d out / d w = x = 2, d out / d b = 1
    let w = mlp.layers[0].neurons[0].weights[0];
    let b = mlp.layers[0].neurons[0].bias;
    assert_eq!(allocator.get(w).grad, F64(2.0));
    assert_eq!(allocator.get(b).grad, F64(1.0));

    mlp.step(&mut allocator, F64(0.5));
    // w -= 0.5 * 2, b -= 0.5 * 1, and both gradients are reset
    assert_eq!(allocator.get(w).data, F64(-0.5));
    assert_eq!(allocator.get(b).data, F64(-0.25));
    assert_eq!(allocator.get(w).grad, F64(0.0));
    assert_eq!(allocator.get(b).grad, F64(0.0));
}
