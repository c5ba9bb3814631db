//! A fixed-topology feed-forward neural network.
//!
//! The topology is an ordered list of layer widths (at least two, all
//! positive). The neurons are held flat, layer-major: all neurons fed by
//! layer `p` come before those fed by layer `p + 1`. Each neuron owns a
//! bias, a leak coefficient and one weight per input, and activates
//! leaky-linearly: positive pre-activations pass unchanged, negative ones
//! are scaled by the neuron's own coefficient. The same canonical order
//! drives the flat weight encoding, so rebuilding a network from its own
//! flattened weights reproduces it exactly.

use vstd::prelude::*;
use vstd::arithmetic::mul::{lemma_mul_inequality, lemma_mul_nonnegative};

use crate::fixed::{r_add, r_mul, Real};
use crate::gen::{wy_out, wy_step, wy_step_n, lemma_wy_step_n_add};
use crate::rng::{normalised_fraction, PetriRand};

verus! {

/// The mathematical shape of one neuron.
pub ghost struct NeuronModel {
    pub bias: Real,
    pub coefficient: Real,
    pub weights: Seq<Real>,
}

/// The mathematical shape of a network: widths plus flat neurons.
pub ghost struct NetworkModel {
    pub layers: Seq<usize>,
    pub neurons: Seq<NeuronModel>,
}

/// How many neurons stand before those of layer pair `p` in the flat,
/// layer-major order (pair `p` feeds layer `p + 1`).
pub open spec fn neurons_before(layers: Seq<usize>, p: int) -> int
    decreases p,
{
    if p <= 0 {
        0
    } else {
        neurons_before(layers, p - 1) + layers[p]
    }
}

/// All neurons a topology prescribes.
pub open spec fn neuron_count(layers: Seq<usize>) -> int {
    neurons_before(layers, layers.len() - 1)
}

/// How many flat weight values stand before those of layer pair `p`.
pub open spec fn weights_before(layers: Seq<usize>, p: int) -> int
    decreases p,
{
    if p <= 0 {
        0
    } else {
        weights_before(layers, p - 1) + layers[p] * (2 + layers[p - 1])
    }
}

/// All flat weight values a topology prescribes.
pub open spec fn weight_count(layers: Seq<usize>) -> int {
    weights_before(layers, layers.len() - 1)
}

/// Where neuron `k` of layer pair `p` starts in the flat weight order.
pub open spec fn weight_pos(layers: Seq<usize>, p: int, k: int) -> int {
    weights_before(layers, p) + k * (2 + layers[p])
}

/// A sound topology: at least two layers, every width positive.
pub open spec fn valid_layers(layers: Seq<usize>) -> bool {
    &&& layers.len() >= 2
    &&& forall|q: int| 0 <= q < layers.len() ==> 1 <= #[trigger] layers[q]
}

/// Well-formedness: the flat neuron list has exactly the layer-major
/// shape the topology prescribes, each neuron as wide as its input layer.
pub open spec fn wf_network(net: NetworkModel) -> bool {
    &&& valid_layers(net.layers)
    &&& net.neurons.len() == neuron_count(net.layers)
    &&& forall|p: int, k: int|
        0 <= p < net.layers.len() - 1 && 0 <= k < net.layers[p + 1]
            ==> (#[trigger] net.neurons[neurons_before(net.layers, p) + k]).weights.len()
            == net.layers[p]
}

/// The flat values `w` are the canonical encoding of `net`: for each
/// neuron, its bias, its coefficient, then its weights, neurons in
/// layer-major order.
pub open spec fn flat_encoding(net: NetworkModel, w: Seq<Real>) -> bool {
    &&& w.len() == weight_count(net.layers)
    &&& forall|p: int, k: int|
        0 <= p < net.layers.len() - 1 && 0 <= k < net.layers[p + 1] ==> {
            let n = #[trigger] net.neurons[neurons_before(net.layers, p) + k];
            let at = weight_pos(net.layers, p, k);
            &&& n.bias == w[at]
            &&& n.coefficient == w[at + 1]
            &&& n.weights == w.subrange(at + 2, at + 2 + net.layers[p])
        }
}

/// The running sum of the first `k` products of inputs and weights.
pub open spec fn dot_prefix(inputs: Seq<Real>, weights: Seq<Real>, k: int) -> Real
    decreases k,
{
    if k <= 0 {
        Real { bits: 0 }
    } else {
        r_add(dot_prefix(inputs, weights, k - 1), r_mul(inputs[k - 1], weights[k - 1]))
    }
}

/// One neuron's response: bias plus the weighted input sum, passed
/// through the leaky-linear activation.
pub open spec fn neuron_response(n: NeuronModel, inputs: Seq<Real>) -> Real {
    let pre = r_add(n.bias, dot_prefix(inputs, n.weights, n.weights.len() as int));
    if pre.bits > 0 {
        pre
    } else {
        r_mul(n.coefficient, pre)
    }
}

/// The vector leaving layer `p`; layer 0 carries the input itself.
pub open spec fn layer_vector(net: NetworkModel, inputs: Seq<Real>, p: int) -> Seq<Real>
    decreases p,
{
    if p <= 0 {
        inputs
    } else {
        let prev = layer_vector(net, inputs, p - 1);
        Seq::new(
            net.layers[p] as nat,
            |k: int| neuron_response(net.neurons[neurons_before(net.layers, p - 1) + k], prev),
        )
    }
}

/// The network's output for a given input vector.
pub open spec fn propagation(net: NetworkModel, inputs: Seq<Real>) -> Seq<Real> {
    layer_vector(net, inputs, net.layers.len() - 1)
}

/// The neuron grown from generator state `s`: bias, coefficient, then
/// one weight per input, each from the normalised distribution.
pub open spec fn neuron_at(s: u64, input_size: int) -> NeuronModel {
    NeuronModel {
        bias: normalised_fraction(wy_out(s) as u32),
        coefficient: normalised_fraction(wy_out(wy_step_n(s, 1)) as u32),
        weights: Seq::new(
            input_size as nat,
            |i: int| normalised_fraction(wy_out(wy_step_n(s, (2 + i) as nat)) as u32),
        ),
    }
}

/// Both prefix counts are nonnegative.
pub proof fn lemma_counts_nonneg(layers: Seq<usize>, p: int)
    requires
        p <= layers.len() - 1,
    ensures
        0 <= neurons_before(layers, p),
        0 <= weights_before(layers, p),
    decreases (if p > 0 { p } else { 0 }),
{
    if p > 0 {
        lemma_counts_nonneg(layers, p - 1);
        lemma_mul_nonnegative(layers[p] as int, 2 + layers[p - 1]);
    }
}

/// Counting functions never go backward: both prefix counts are
/// nonnegative and nondecreasing in the pair index.
pub proof fn lemma_counts_monotone(layers: Seq<usize>, p1: int, p2: int)
    requires
        0 <= p1 <= p2 <= layers.len() - 1,
    ensures
        neurons_before(layers, p1) <= neurons_before(layers, p2),
        weights_before(layers, p1) <= weights_before(layers, p2),
        0 <= neurons_before(layers, p1),
        0 <= weights_before(layers, p1),
    decreases p2 - p1,
{
    lemma_counts_nonneg(layers, p1);
    if p1 < p2 {
        lemma_counts_monotone(layers, p1, p2 - 1);
        lemma_mul_nonnegative(layers[p2] as int, 2 + layers[p2 - 1]);
    }
}

/// Within pair `p`, neuron `k`'s flat values fit inside the total count.
pub proof fn lemma_weight_pos_fits(layers: Seq<usize>, p: int, k: int)
    requires
        valid_layers(layers),
        0 <= p < layers.len() - 1,
        0 <= k < layers[p + 1],
    ensures
        0 <= weight_pos(layers, p, k),
        weight_pos(layers, p, k) + 2 + layers[p] <= weight_count(layers),
        0 <= neurons_before(layers, p) + k < neuron_count(layers),
{
    lemma_counts_monotone(layers, 0, p);
    lemma_counts_monotone(layers, p + 1, layers.len() - 1);
    lemma_mul_nonnegative(k, 2 + layers[p]);
    lemma_mul_inequality(k + 1, layers[p + 1] as int, 2 + layers[p]);
    assert((k + 1) * (2 + layers[p]) == k * (2 + layers[p]) + (2 + layers[p]))
        by (nonlinear_arith);
    assert(weights_before(layers, p + 1) == weights_before(layers, p) + layers[p + 1] * (2
        + layers[p]));
    assert(neurons_before(layers, p + 1) == neurons_before(layers, p) + layers[p + 1]);
}

/// Every flat neuron index falls inside exactly one layer pair; this
/// hands back that pair and the index within it.
pub proof fn lemma_pair_of_index(layers: Seq<usize>, j: int, p: int) -> (r: (int, int))
    requires
        valid_layers(layers),
        0 <= p < layers.len() - 1,
        neurons_before(layers, p) <= j < neuron_count(layers),
    ensures
        0 <= r.0 < layers.len() - 1,
        0 <= r.1 < layers[r.0 + 1],
        j == neurons_before(layers, r.0) + r.1,
    decreases layers.len() - p,
{
    if j < neurons_before(layers, p) + layers[p + 1] {
        (p, j - neurons_before(layers, p))
    } else {
        assert(neurons_before(layers, p + 1) == neurons_before(layers, p) + layers[p + 1]);
        if p + 1 >= layers.len() - 1 {
            assert(false);
            (0, 0)
        } else {
            lemma_pair_of_index(layers, j, p + 1)
        }
    }
}

/// The canonical encoding determines the network: two well-formed
/// networks over the same topology with the same flat values are equal.
pub proof fn lemma_flat_encoding_determines(a: NetworkModel, b: NetworkModel, w: Seq<Real>)
    requires
        wf_network(a),
        wf_network(b),
        a.layers == b.layers,
        flat_encoding(a, w),
        flat_encoding(b, w),
    ensures
        a == b,
{
    assert forall|j: int| 0 <= j < a.neurons.len() implies a.neurons[j] == b.neurons[j] by {
        let (pp, k) = lemma_pair_of_index(a.layers, j, 0);
        assert(a.neurons[neurons_before(a.layers, pp) + k] == b.neurons[neurons_before(
            a.layers,
            pp,
        ) + k]);
    }
    assert(a.neurons =~= b.neurons);
}

/// Round trip: a well-formed network rebuilt over its own topology from
/// its own flattened weights is that same network, so it propagates
/// identically on every input vector.
pub proof fn lemma_weights_round_trip(
    original: NetworkModel,
    rebuilt: NetworkModel,
    w: Seq<Real>,
    inputs: Seq<Real>,
)
    requires
        wf_network(original),
        wf_network(rebuilt),
        original.layers == rebuilt.layers,
        flat_encoding(original, w),
        flat_encoding(rebuilt, w),
    ensures
        rebuilt == original,
        propagation(rebuilt, inputs) == propagation(original, inputs),
{
    lemma_flat_encoding_determines(original, rebuilt, w);
}

/// One neuron: a bias, a leak coefficient, and one weight per input.
#[derive(Clone, Debug, PartialEq)]
pub struct Neuron {
    pub bias: Real,
    pub coefficient: Real,
    pub weights: Vec<Real>,
}

impl View for Neuron {
    type V = NeuronModel;

    open spec fn view(&self) -> NeuronModel {
        NeuronModel { bias: self.bias, coefficient: self.coefficient, weights: self.weights@ }
    }
}

impl Neuron {
    /// Draw a fresh neuron: bias, coefficient, then each weight, all from
    /// the normalised distribution, in that order.
    pub fn random(rng: &mut PetriRand, input_size: usize) -> (r: Neuron)
        ensures
            r@ == neuron_at(old(rng).rng.state, input_size as int),
            r.weights@.len() == input_size,
            final(rng).rng.state == wy_step_n(old(rng).rng.state, (2 + input_size) as nat),
    {
        let ghost s0 = rng.rng.state;
        let bias = rng.get_real_normalised();
        proof {
            assert(wy_step_n(s0, 1) == wy_step_n(wy_step_n(s0, 0), 1));
        }
        let coefficient = rng.get_real_normalised();
        proof {
            assert(wy_step_n(s0, 2) == wy_step(wy_step_n(s0, 1)));
        }
        let mut weights: Vec<Real> = Vec::new();
        let mut i: usize = 0;
        while i < input_size
            invariant
                i <= input_size,
                weights@.len() == i,
                rng.rng.state == wy_step_n(s0, (2 + i) as nat),
                forall|j: int|
                    0 <= j < i ==> weights@[j] == normalised_fraction(
                        wy_out(wy_step_n(s0, (2 + j) as nat)) as u32,
                    ),
            decreases input_size - i,
        {
            let w = rng.get_real_normalised();
            proof {
                assert(wy_step_n(s0, (3 + i) as nat) == wy_step(wy_step_n(s0, (2 + i) as nat)));
            }
            weights.push(w);
            i = i + 1;
        }
        let r = Neuron { bias, coefficient, weights };
        proof {
            assert(r@.weights =~= neuron_at(s0, input_size as int).weights);
        }
        r
    }

    /// The neuron's response to an input vector of its own width.
    pub fn propagate(&self, inputs: &Vec<Real>) -> (r: Real)
        requires
            inputs@.len() == self.weights@.len(),
        ensures
            r == neuron_response(self@, inputs@),
    {
        let mut sum = Real::zero();
        let mut k: usize = 0;
        while k < self.weights.len()
            invariant
                k <= self.weights@.len(),
                inputs@.len() == self.weights@.len(),
                sum == dot_prefix(inputs@, self.weights@, k as int),
            decreases self.weights@.len() - k,
        {
            sum = sum.plus(inputs[k].times(self.weights[k]));
            k = k + 1;
        }
        let pre = self.bias.plus(sum);
        if pre.bits > 0 {
            pre
        } else {
            self.coefficient.times(pre)
        }
    }

    /// The neuron's slice of the canonical flat order: bias, coefficient,
    /// then the weights.
    pub fn weights(&self) -> (r: Vec<Real>)
        ensures
            r@ == seq![self.bias, self.coefficient] + self.weights@,
    {
        let mut out: Vec<Real> = Vec::new();
        out.push(self.bias);
        out.push(self.coefficient);
        let mut i: usize = 0;
        while i < self.weights.len()
            invariant
                i <= self.weights@.len(),
                out@.len() == 2 + i,
                out@[0] == self.bias,
                out@[1] == self.coefficient,
                forall|j: int| 0 <= j < i ==> out@[2 + j] == self.weights@[j],
            decreases self.weights@.len() - i,
        {
            out.push(self.weights[i]);
            i = i + 1;
        }
        proof {
            assert(out@ =~= seq![self.bias, self.coefficient] + self.weights@);
        }
        out
    }

    /// Rebuild a neuron from the flat order, reading at position `at`:
    /// bias, coefficient, then `input_neurons` weights.
    pub fn from_weights(input_neurons: usize, weights: &Vec<Real>, at: usize) -> (r: Neuron)
        requires
            at + 2 + input_neurons <= weights@.len(),
        ensures
            r.bias == weights@[at as int],
            r.coefficient == weights@[at + 1],
            r.weights@ == weights@.subrange(at + 2, at + 2 + input_neurons),
            r.weights@.len() == input_neurons,
    {
        let total = weights.len();
        let bias = weights[at];
        let coefficient = weights[at + 1];
        let mut ws: Vec<Real> = Vec::new();
        let mut i: usize = 0;
        while i < input_neurons
            invariant
                i <= input_neurons,
                total == weights@.len(),
                at + 2 + input_neurons <= weights@.len(),
                ws@.len() == i,
                forall|j: int| 0 <= j < i ==> ws@[j] == weights@[at + 2 + j],
            decreases input_neurons - i,
        {
            ws.push(weights[at + 2 + i]);
            i = i + 1;
        }
        proof {
            assert(ws@ =~= weights@.subrange(at as int + 2, at as int + 2 + input_neurons as int));
        }
        Neuron { bias, coefficient, weights: ws }
    }
}

/// A feed-forward network: the topology and the flat neuron list.
#[derive(Clone, Debug, PartialEq)]
pub struct Network {
    pub layers: Vec<usize>,
    pub neurons: Vec<Neuron>,
}

impl View for Network {
    type V = NetworkModel;

    open spec fn view(&self) -> NetworkModel {
        NetworkModel {
            layers: self.layers@,
            neurons: Seq::new(self.neurons@.len(), |j: int| self.neurons@[j]@),
        }
    }
}

/// Build the flat neuron list of a topology, pulling each neuron's
/// values in canonical order from the supplied flat sequence.
fn build_neurons(layers: &Vec<usize>, weights: &Vec<Real>) -> (r: Vec<Neuron>)
    requires
        valid_layers(layers@),
        weights@.len() == weight_count(layers@),
    ensures
        r@.len() == neuron_count(layers@),
        forall|p: int, k: int|
            0 <= p < layers@.len() - 1 && 0 <= k < layers@[p + 1] ==> {
                let at = weight_pos(layers@, p, k);
                let n = #[trigger] r@[neurons_before(layers@, p) + k]@;
                &&& n.bias == weights@[at]
                &&& n.coefficient == weights@[at + 1]
                &&& n.weights == weights@.subrange(at + 2, at + 2 + layers@[p])
            },
{
    let depth = layers.len();
    let total = weights.len();
    let mut neurons: Vec<Neuron> = Vec::new();
    let mut pos: usize = 0;
    let mut p: usize = 0;
    while p + 1 < depth
        invariant
            valid_layers(layers@),
            depth == layers@.len(),
            total == weights@.len(),
            weights@.len() == weight_count(layers@),
            p <= layers@.len() - 1,
            neurons@.len() == neurons_before(layers@, p as int),
            pos == weights_before(layers@, p as int),
            forall|pp: int, k: int|
                0 <= pp < p && 0 <= k < layers@[pp + 1] ==> {
                    let at = weight_pos(layers@, pp, k);
                    let n = #[trigger] neurons@[neurons_before(layers@, pp) + k]@;
                    &&& n.bias == weights@[at]
                    &&& n.coefficient == weights@[at + 1]
                    &&& n.weights == weights@.subrange(at + 2, at + 2 + layers@[pp])
                },
        decreases layers@.len() - p,
    {
        let input = layers[p];
        let output = layers[p + 1];
        let mut k: usize = 0;
        while k < output
            invariant
                valid_layers(layers@),
                total == weights@.len(),
                weights@.len() == weight_count(layers@),
                p < layers@.len() - 1,
                input == layers@[p as int],
                output == layers@[p + 1],
                k <= output,
                neurons@.len() == neurons_before(layers@, p as int) + k,
                pos == weight_pos(layers@, p as int, k as int),
                forall|pp: int, kk: int|
                    (0 <= pp < p && 0 <= kk < layers@[pp + 1]) || (pp == p && 0 <= kk < k) ==> {
                        let at = weight_pos(layers@, pp, kk);
                        let n = #[trigger] neurons@[neurons_before(layers@, pp) + kk]@;
                        &&& n.bias == weights@[at]
                        &&& n.coefficient == weights@[at + 1]
                        &&& n.weights == weights@.subrange(at + 2, at + 2 + layers@[pp])
                    },
            decreases output - k,
        {
            let ghost kk0 = k as int;
            let ghost neurons0 = neurons@;
            proof {
                lemma_weight_pos_fits(layers@, p as int, kk0);
            }
            let n = Neuron::from_weights(input, weights, pos);
            neurons.push(n);
            pos = pos + 2 + input;
            k = k + 1;
            proof {
                assert(pos == weight_pos(layers@, p as int, k as int)) by {
                    assert(kk0 * (2 + layers@[p as int]) + (2 + layers@[p as int]) == (kk0 + 1) * (2
                        + layers@[p as int])) by (nonlinear_arith);
                }
                assert forall|pp: int, kk: int|
                    (0 <= pp < p && 0 <= kk < layers@[pp + 1]) || (pp == p && 0 <= kk < k) implies {
                        let at = weight_pos(layers@, pp, kk);
                        let nn = #[trigger] neurons@[neurons_before(layers@, pp) + kk]@;
                        &&& nn.bias == weights@[at]
                        &&& nn.coefficient == weights@[at + 1]
                        &&& nn.weights == weights@.subrange(at + 2, at + 2 + layers@[pp])
                    } by {
                    lemma_weight_pos_fits(layers@, pp, kk);
                    if pp == p && kk == kk0 {
                        assert(neurons@[neurons_before(layers@, pp) + kk]@ == n@);
                    } else {
                        if pp < p {
                            lemma_counts_monotone(layers@, pp + 1, p as int);
                            assert(neurons_before(layers@, pp + 1) == neurons_before(layers@, pp)
                                + layers@[pp + 1]);
                            lemma_counts_nonneg(layers@, pp);
                        }
                        assert(neurons@[neurons_before(layers@, pp) + kk]
                            == neurons0[neurons_before(layers@, pp) + kk]);
                    }
                }
            }
        }
        p = p + 1;
        proof {
            assert(neurons@.len() == neurons_before(layers@, p as int));
            assert(pos == weights_before(layers@, p as int)) by {
                assert(layers@[p - 1 + 1] * (2 + layers@[p - 1]) == output * (2 + input));
            }
        }
    }
    neurons
}

impl Network {
    /// Grow a fresh network over a topology, drawing every neuron's
    /// values from the normalised distribution in canonical order.
    pub fn random(rng: &mut PetriRand, layers: Vec<usize>) -> (r: Network)
        requires
            valid_layers(layers@),
        ensures
            r.layers@ == layers@,
            wf_network(r@),
            forall|p: int, k: int|
                0 <= p < layers@.len() - 1 && 0 <= k < layers@[p + 1]
                    ==> (#[trigger] r@.neurons[neurons_before(layers@, p) + k]) == neuron_at(
                    wy_step_n(old(rng).rng.state, weight_pos(layers@, p, k) as nat),
                    layers@[p] as int,
                ),
            final(rng).rng.state == wy_step_n(
                old(rng).rng.state,
                weight_count(layers@) as nat,
            ),
    {
        let ghost s0 = rng.rng.state;
        let depth = layers.len();
        let mut neurons: Vec<Neuron> = Vec::new();
        let mut p: usize = 0;
        while p + 1 < depth
            invariant
                valid_layers(layers@),
                depth == layers@.len(),
                p <= layers@.len() - 1,
                neurons@.len() == neurons_before(layers@, p as int),
                rng.rng.state == wy_step_n(s0, weights_before(layers@, p as int) as nat),
                forall|pp: int, k: int|
                    0 <= pp < p && 0 <= k < layers@[pp + 1]
                        ==> (#[trigger] neurons@[neurons_before(layers@, pp) + k])@ == neuron_at(
                        wy_step_n(s0, weight_pos(layers@, pp, k) as nat),
                        layers@[pp] as int,
                    ),
            decreases layers@.len() - p,
        {
            let input = layers[p];
            let output = layers[p + 1];
            let mut k: usize = 0;
            while k < output
                invariant
                    valid_layers(layers@),
                    p < layers@.len() - 1,
                    input == layers@[p as int],
                    output == layers@[p + 1],
                    k <= output,
                    neurons@.len() == neurons_before(layers@, p as int) + k,
                    rng.rng.state == wy_step_n(s0, weight_pos(layers@, p as int, k as int) as nat),
                    forall|pp: int, kk: int|
                        (0 <= pp < p && 0 <= kk < layers@[pp + 1]) || (pp == p && 0 <= kk < k)
                            ==> (#[trigger] neurons@[neurons_before(layers@, pp) + kk])@
                            == neuron_at(
                            wy_step_n(s0, weight_pos(layers@, pp, kk) as nat),
                            layers@[pp] as int,
                        ),
                decreases output - k,
            {
                let ghost kk0 = k as int;
                let ghost neurons0 = neurons@;
                proof {
                    lemma_weight_pos_fits(layers@, p as int, kk0);
                }
                let n = Neuron::random(rng, input);
                neurons.push(n);
                k = k + 1;
                proof {
                    lemma_wy_step_n_add(
                        s0,
                        weight_pos(layers@, p as int, kk0) as nat,
                        (2 + input) as nat,
                    );
                    assert(rng.rng.state == wy_step_n(
                        s0,
                        weight_pos(layers@, p as int, k as int) as nat,
                    )) by {
                        assert(kk0 * (2 + layers@[p as int]) + (2 + layers@[p as int]) == (kk0 + 1)
                            * (2 + layers@[p as int])) by (nonlinear_arith);
                    }
                    assert forall|pp: int, kk: int|
                        (0 <= pp < p && 0 <= kk < layers@[pp + 1]) || (pp == p && 0 <= kk < k)
                            implies (#[trigger] neurons@[neurons_before(layers@, pp) + kk])@
                            == neuron_at(
                            wy_step_n(s0, weight_pos(layers@, pp, kk) as nat),
                            layers@[pp] as int,
                        ) by {
                        lemma_weight_pos_fits(layers@, pp, kk);
                        if pp == p && kk == kk0 {
                            assert(neurons@[neurons_before(layers@, pp) + kk]@ == n@);
                        } else {
                            if pp < p {
                                lemma_counts_monotone(layers@, pp + 1, p as int);
                                assert(neurons_before(layers@, pp + 1) == neurons_before(
                                    layers@,
                                    pp,
                                ) + layers@[pp + 1]);
                                lemma_counts_nonneg(layers@, pp);
                            }
                            assert(neurons@[neurons_before(layers@, pp) + kk]
                                == neurons0[neurons_before(layers@, pp) + kk]);
                        }
                    }
                }
            }
            p = p + 1;
            proof {
                assert(neurons@.len() == neurons_before(layers@, p as int));
                assert(rng.rng.state == wy_step_n(s0, weights_before(layers@, p as int) as nat))
                    by {
                    assert(layers@[p - 1 + 1] * (2 + layers@[p - 1]) == output * (2 + input));
                }
            }
        }
        let r = Network { layers, neurons };
        proof {
            assert forall|pp: int, k: int|
                0 <= pp < r.layers@.len() - 1 && 0 <= k < r.layers@[pp + 1] implies (
            #[trigger] r@.neurons[neurons_before(r.layers@, pp) + k]) == neuron_at(
                wy_step_n(s0, weight_pos(r.layers@, pp, k) as nat),
                r.layers@[pp] as int,
            ) by {
                lemma_weight_pos_fits(r.layers@, pp, k);
                assert(r@.neurons[neurons_before(r.layers@, pp) + k] == r.neurons@[neurons_before(
                    r.layers@,
                    pp,
                ) + k]@);
            }
            assert forall|pp: int, k: int|
                0 <= pp < r.layers@.len() - 1 && 0 <= k < r.layers@[pp + 1] implies (
            #[trigger] r@.neurons[neurons_before(r.layers@, pp) + k]).weights.len()
                == r.layers@[pp] by {
                lemma_weight_pos_fits(r.layers@, pp, k);
            }
        }
        r
    }

    /// Rebuild a network over a topology from flat values in canonical
    /// order. The caller must supply exactly the prescribed count: too
    /// few or leftover values are a caller error, never a runtime one.
    pub fn from_weights(layers: Vec<usize>, weights: &Vec<Real>) -> (r: Network)
        requires
            valid_layers(layers@),
            weights@.len() == weight_count(layers@),
        ensures
            r.layers@ == layers@,
            wf_network(r@),
            flat_encoding(r@, weights@),
    {
        let neurons = build_neurons(&layers, weights);
        let r = Network { layers, neurons };
        proof {
            assert forall|p: int, k: int|
                0 <= p < r.layers@.len() - 1 && 0 <= k < r.layers@[p + 1] implies {
                let at = weight_pos(r.layers@, p, k);
                let n = #[trigger] r@.neurons[neurons_before(r.layers@, p) + k];
                &&& n.bias == weights@[at]
                &&& n.coefficient == weights@[at + 1]
                &&& n.weights == weights@.subrange(at + 2, at + 2 + r.layers@[p])
                &&& n.weights.len() == r.layers@[p]
            } by {
                lemma_weight_pos_fits(r.layers@, p, k);
                assert(r@.neurons[neurons_before(r.layers@, p) + k] == r.neurons@[neurons_before(
                    r.layers@,
                    p,
                ) + k]@);
            }
        }
        r
    }

    /// Rewrite this network in place from flat values in canonical
    /// order, exactly as `from_weights` would build it.
    pub fn adjust_weights(&mut self, weights: &Vec<Real>)
        requires
            valid_layers(old(self).layers@),
            weights@.len() == weight_count(old(self).layers@),
        ensures
            final(self).layers@ == old(self).layers@,
            wf_network(final(self)@),
            flat_encoding(final(self)@, weights@),
    {
        let neurons = build_neurons(&self.layers, weights);
        self.neurons = neurons;
        proof {
            assert forall|p: int, k: int|
                0 <= p < self.layers@.len() - 1 && 0 <= k < self.layers@[p + 1] implies {
                let at = weight_pos(self.layers@, p, k);
                let n = #[trigger] self@.neurons[neurons_before(self.layers@, p) + k];
                &&& n.bias == weights@[at]
                &&& n.coefficient == weights@[at + 1]
                &&& n.weights == weights@.subrange(at + 2, at + 2 + self.layers@[p])
                &&& n.weights.len() == self.layers@[p]
            } by {
                lemma_weight_pos_fits(self.layers@, p, k);
                assert(self@.neurons[neurons_before(self.layers@, p) + k]
                    == self.neurons@[neurons_before(self.layers@, p) + k]@);
            }
        }
    }

    /// Flatten the network into the canonical order: for each neuron,
    /// bias, coefficient, then its weights — exactly the order
    /// `from_weights` expects back.
    pub fn weights(&self) -> (r: Vec<Real>)
        requires
            wf_network(self@),
        ensures
            r@.len() == weight_count(self.layers@),
            flat_encoding(self@, r@),
    {
        let depth = self.layers.len();
        let ncount = self.neurons.len();
        let mut out: Vec<Real> = Vec::new();
        let mut from: usize = 0;
        let mut p: usize = 0;
        while p + 1 < depth
            invariant
                wf_network(self@),
                depth == self.layers@.len(),
                ncount == self.neurons@.len(),
                p <= self.layers@.len() - 1,
                from == neurons_before(self.layers@, p as int),
                out@.len() == weights_before(self.layers@, p as int),
                forall|pp: int, k: int|
                    0 <= pp < p && 0 <= k < self.layers@[pp + 1] ==> {
                        let at = weight_pos(self.layers@, pp, k);
                        let n = #[trigger] self@.neurons[neurons_before(self.layers@, pp) + k];
                        &&& n.bias == out@[at]
                        &&& n.coefficient == out@[at + 1]
                        &&& n.weights == out@.subrange(at + 2, at + 2 + self.layers@[pp])
                    },
            decreases self.layers@.len() - p,
        {
            let output = self.layers[p + 1];
            let mut k: usize = 0;
            while k < output
                invariant
                    wf_network(self@),
                    ncount == self.neurons@.len(),
                    p < self.layers@.len() - 1,
                    output == self.layers@[p + 1],
                    k <= output,
                    from == neurons_before(self.layers@, p as int) + k,
                    out@.len() == weight_pos(self.layers@, p as int, k as int),
                    forall|pp: int, kk: int|
                        (0 <= pp < p && 0 <= kk < self.layers@[pp + 1]) || (pp == p && 0 <= kk < k)
                            ==> {
                            let at = weight_pos(self.layers@, pp, kk);
                            let n = #[trigger] self@.neurons[neurons_before(self.layers@, pp)
                                + kk];
                            &&& n.bias == out@[at]
                            &&& n.coefficient == out@[at + 1]
                            &&& n.weights == out@.subrange(at + 2, at + 2 + self.layers@[pp])
                        },
                decreases output - k,
            {
                let ghost out0 = out@;
                let ghost kk0 = k as int;
                proof {
                    lemma_weight_pos_fits(self.layers@, p as int, kk0);
                }
                let mut piece = self.neurons[from].weights();
                proof {
                    assert(self@.neurons[neurons_before(self.layers@, p as int) + kk0]
                        == self.neurons@[from as int]@);
                    assert(self@.neurons[neurons_before(self.layers@, p as int)
                        + kk0].weights.len() == self.layers@[p as int]);
                }
                out.append(&mut piece);
                from = from + 1;
                k = k + 1;
                proof {
                    assert(out@.len() == weight_pos(self.layers@, p as int, k as int)) by {
                        assert(kk0 * (2 + self.layers@[p as int]) + (2 + self.layers@[p as int])
                            == (kk0 + 1) * (2 + self.layers@[p as int])) by (nonlinear_arith);
                    }
                    assert forall|pp: int, kk: int|
                        (0 <= pp < p && 0 <= kk < self.layers@[pp + 1]) || (pp == p && 0 <= kk < k)
                            implies {
                            let at = weight_pos(self.layers@, pp, kk);
                            let n = #[trigger] self@.neurons[neurons_before(self.layers@, pp)
                                + kk];
                            &&& n.bias == out@[at]
                            &&& n.coefficient == out@[at + 1]
                            &&& n.weights == out@.subrange(at + 2, at + 2 + self.layers@[pp])
                        } by {
                        lemma_weight_pos_fits(self.layers@, pp, kk);
                        let at = weight_pos(self.layers@, pp, kk);
                        let n = self@.neurons[neurons_before(self.layers@, pp) + kk];
                        assert(n.weights.len() == self.layers@[pp]);
                        if pp == p && kk == kk0 {
                            assert(at == out0.len());
                            assert(n.weights =~= out@.subrange(at + 2, at + 2 + self.layers@[pp]));
                        } else {
                            assert(at + 2 + self.layers@[pp] <= out0.len()) by {
                                if pp == p {
                                    assert((kk + 1) * (2 + self.layers@[p as int]) <= kk0 * (2
                                        + self.layers@[p as int])) by (nonlinear_arith)
                                        requires
                                        kk < kk0,
                                        self.layers@[p as int] >= 1,
                                    ;
                                    assert((kk + 1) * (2 + self.layers@[p as int]) == kk * (2
                                        + self.layers@[p as int]) + (2 + self.layers@[p as int]))
                                        by (nonlinear_arith);
                                } else {
                                    lemma_weight_pos_fits(self.layers@, pp, kk);
                                    lemma_counts_monotone(self.layers@, pp + 1, p as int);
                                    lemma_mul_nonnegative(kk0, 2 + self.layers@[p as int]);
                                    assert((kk + 1) * (2 + self.layers@[pp]) == kk * (2
                                        + self.layers@[pp]) + (2 + self.layers@[pp]))
                                        by (nonlinear_arith);
                                    assert(weight_pos(self.layers@, pp, kk) + 2 + self.layers@[pp]
                                        <= weights_before(self.layers@, pp + 1)) by {
                                        lemma_mul_inequality(
                                            kk + 1,
                                            self.layers@[pp + 1] as int,
                                            2 + self.layers@[pp],
                                        );
                                    }
                                }
                            }
                            assert(n.weights =~= out@.subrange(at + 2, at + 2 + self.layers@[pp]));
                        }
                    }
                }
            }
            p = p + 1;
            proof {
                assert(out@.len() == weights_before(self.layers@, p as int)) by {
                    assert(self.layers@[p - 1 + 1] * (2 + self.layers@[p - 1]) == output as int * (2
                        + self.layers@[p - 1]));
                }
            }
        }
        out
    }

    /// Feed an input vector of the first layer's width through every
    /// layer in order; the result has the last layer's width.
    pub fn propagate(&self, inputs: Vec<Real>) -> (r: Vec<Real>)
        requires
            wf_network(self@),
            inputs@.len() == self.layers@[0],
        ensures
            r@ == propagation(self@, inputs@),
            r@.len() == self.layers@[self.layers@.len() - 1],
    {
        let ghost inputs0 = inputs@;
        let depth = self.layers.len();
        let ncount = self.neurons.len();
        let mut current = inputs;
        let mut from: usize = 0;
        let mut p: usize = 1;
        while p < depth
            invariant
                wf_network(self@),
                depth == self.layers@.len(),
                ncount == self.neurons@.len(),
                inputs0.len() == self.layers@[0],
                1 <= p <= self.layers@.len(),
                from == neurons_before(self.layers@, p - 1),
                current@ == layer_vector(self@, inputs0, p - 1),
                current@.len() == self.layers@[p - 1],
            decreases self.layers@.len() - p,
        {
            let output = self.layers[p];
            let mut next: Vec<Real> = Vec::new();
            let mut k: usize = 0;
            while k < output
                invariant
                    wf_network(self@),
                    ncount == self.neurons@.len(),
                    1 <= p < self.layers@.len(),
                    output == self.layers@[p as int],
                    k <= output,
                    from == neurons_before(self.layers@, p - 1),
                    current@ == layer_vector(self@, inputs0, p - 1),
                    current@.len() == self.layers@[p - 1],
                    next@.len() == k,
                    forall|kk: int|
                        0 <= kk < k ==> next@[kk] == neuron_response(
                            self@.neurons[neurons_before(self.layers@, p - 1) + kk],
                            current@,
                        ),
                decreases output - k,
            {
                proof {
                    lemma_weight_pos_fits(self.layers@, p - 1, k as int);
                    assert(self@.neurons[neurons_before(self.layers@, p - 1)
                        + k as int].weights.len() == self.layers@[p - 1]);
                    assert(self@.neurons[neurons_before(self.layers@, p - 1) + k as int]
                        == self.neurons@[from + k as int]@);
                }
                let v = self.neurons[from + k].propagate(&current);
                next.push(v);
                k = k + 1;
            }
            proof {
                assert(next@ =~= layer_vector(self@, inputs0, p as int));
                lemma_counts_monotone(self.layers@, p as int, self.layers@.len() - 1);
            }
            from = from + output;
            current = next;
            p = p + 1;
            proof {
                assert(from == neurons_before(self.layers@, p - 1));
            }
        }
        current
    }
}

} // verus!
