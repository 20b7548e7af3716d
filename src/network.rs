//! A feed-forward network of rectified linear neurons, and its flat genome.
//!
//! The genome lists, layer by layer and neuron by neuron, each neuron's bias
//! followed by its weights.

use crate::fixed::ONE;
use crate::random::unit_fraction;
use rand_chacha::ChaCha8Rng;
use vstd::prelude::*;

verus! {

/// The size of one layer: its number of neurons.
#[derive(Clone, Copy, Debug)]
pub struct LayerTopology {
    pub num_neuron: usize,
}

/// A neuron as its bias and its weights.
pub type NeuronModel = (i32, Seq<i32>);

/// A layer as its neurons.
pub type LayerModel = Seq<NeuronModel>;

/// A network as its layers.
pub type NetworkModel = Seq<LayerModel>;

#[derive(Debug)]
pub struct Neuron {
    pub bias: i32,
    pub weights: Vec<i32>,
}

#[derive(Debug)]
pub struct Layer {
    pub neurons: Vec<Neuron>,
}

#[derive(Debug)]
pub struct Network {
    layers: Vec<Layer>,
}

impl View for Neuron {
    type V = NeuronModel;

    open spec fn view(&self) -> NeuronModel {
        (self.bias, self.weights@)
    }
}

impl View for Layer {
    type V = LayerModel;

    open spec fn view(&self) -> LayerModel {
        self.neurons@.map_values(|n: Neuron| n@)
    }
}

impl View for Network {
    type V = NetworkModel;

    closed spec fn view(&self) -> NetworkModel {
        self.layers@.map_values(|l: Layer| l@)
    }
}

/// The neuron counts of a topology.
pub open spec fn sizes(t: Seq<LayerTopology>) -> Seq<nat> {
    t.map_values(|l: LayerTopology| l.num_neuron as nat)
}

/// Sum of the products of inputs and weights.
pub open spec fn dot(inputs: Seq<i32>, weights: Seq<i32>) -> int
    decreases inputs.len(),
{
    if inputs.len() == 0 || weights.len() == 0 {
        0
    } else {
        dot(inputs.drop_last(), weights.drop_last()) + inputs.last() * weights.last()
    }
}

/// `max(0, bias + sum(input * weight))` in fixed point, truncated, and capped
/// at the largest value a neuron can hold.
pub open spec fn neuron_output(n: NeuronModel, inputs: Seq<i32>) -> i32 {
    let s = n.0 * ONE + dot(inputs, n.1);
    if s <= 0 {
        0
    } else if s / (ONE as int) > i32::MAX {
        i32::MAX
    } else {
        (s / (ONE as int)) as i32
    }
}

pub open spec fn layer_output(l: LayerModel, inputs: Seq<i32>) -> Seq<i32> {
    l.map_values(|n: NeuronModel| neuron_output(n, inputs))
}

/// The inputs fed through each layer in order.
pub open spec fn network_output(v: NetworkModel, inputs: Seq<i32>) -> Seq<i32>
    decreases v.len(),
{
    if v.len() == 0 {
        inputs
    } else {
        layer_output(v.last(), network_output(v.drop_last(), inputs))
    }
}

pub open spec fn neuron_params(n: NeuronModel) -> Seq<i32> {
    seq![n.0] + n.1
}

pub open spec fn layer_params(l: LayerModel) -> Seq<i32>
    decreases l.len(),
{
    if l.len() == 0 {
        seq![]
    } else {
        layer_params(l.drop_last()) + neuron_params(l.last())
    }
}

/// The genome of a network.
pub open spec fn network_params(v: NetworkModel) -> Seq<i32>
    decreases v.len(),
{
    if v.len() == 0 {
        seq![]
    } else {
        network_params(v.drop_last()) + layer_params(v.last())
    }
}

/// Genome length of a topology: `(inputs + 1) * outputs` summed over layers.
pub open spec fn param_count(t: Seq<nat>) -> nat
    decreases t.len(),
{
    if t.len() < 2 {
        0
    } else {
        param_count(t.drop_last()) + (t[t.len() - 2] + 1) * t[t.len() - 1]
    }
}

/// Every neuron of the layer takes `inputs` inputs.
pub open spec fn layer_shaped(l: LayerModel, inputs: nat) -> bool {
    forall|k: int| 0 <= k < l.len() ==> (#[trigger] l[k]).1.len() == inputs
}

/// The network has the layer sizes of topology `t` (the first entry being
/// the number of inputs).
pub open spec fn shaped(v: NetworkModel, t: Seq<nat>) -> bool {
    &&& t.len() == v.len() + 1
    &&& forall|i: int| 0 <= i < v.len() ==> (#[trigger] v[i]).len() == t[i + 1]
    &&& forall|i: int| 0 <= i < v.len() ==> layer_shaped(#[trigger] v[i], t[i])
}

/// Number of inputs the first layer takes.
pub open spec fn input_size(v: NetworkModel) -> nat {
    if v.len() > 0 && v[0].len() > 0 {
        v[0][0].1.len()
    } else {
        0
    }
}

/// The layer sizes of a network, its number of inputs first.
pub open spec fn topology_of(v: NetworkModel) -> Seq<nat> {
    seq![input_size(v)] + Seq::new(v.len(), |i: int| v[i].len())
}

/// At least one layer, and each layer takes as many inputs as the one before
/// has neurons.
pub open spec fn well_formed(v: NetworkModel) -> bool {
    v.len() >= 1 && shaped(v, topology_of(v))
}

/// A network with the layer sizes of a topology is well formed, and takes
/// the topology's number of inputs.
pub proof fn lemma_shaped_well_formed(v: NetworkModel, t: Seq<nat>)
    requires
        shaped(v, t),
        v.len() >= 1,
    ensures
        well_formed(v),
        v[0].len() > 0 ==> input_size(v) == t[0],
{
    let tv = topology_of(v);
    assert forall|i: int| 0 <= i < v.len() implies layer_shaped(#[trigger] v[i], tv[i]) by {
        assert(layer_shaped(v[i], t[i]));
        if i > 0 {
            assert(v[i - 1].len() == t[i]);
        } else if v[0].len() > 0 {
            assert(v[0][0].1.len() == t[0]);
        }
    }
}

/// A network with the layer sizes of a topology answers with as many outputs
/// as its last layer has neurons.
pub proof fn lemma_output_len(v: NetworkModel, t: Seq<nat>, inputs: Seq<i32>)
    requires
        shaped(v, t),
        v.len() >= 1,
    ensures
        network_output(v, inputs).len() == t[v.len() as int],
{
    assert(v.last().len() == t[v.len() - 1 + 1]);
}

proof fn lemma_neuron_step(inputs: Seq<i32>, weights: Seq<i32>, j: int)
    requires
        0 <= j < inputs.len(),
        inputs.len() == weights.len(),
    ensures
        dot(inputs.take(j + 1), weights.take(j + 1)) == dot(inputs.take(j), weights.take(j))
            + inputs[j] * weights[j],
{
    assert(inputs.take(j + 1).drop_last() =~= inputs.take(j));
    assert(weights.take(j + 1).drop_last() =~= weights.take(j));
}

impl Neuron {
    /// The neuron's response to `inputs`.
    pub fn propagate(&self, inputs: &Vec<i32>) -> (r: i32)
        requires
            inputs.len() == self.weights.len(),
        ensures
            r == neuron_output(self@, inputs@),
    {
        let n = inputs.len();
        let mut acc: i128 = 0;
        let mut j: usize = 0;
        while j < n
            invariant
                n == inputs.len() == self.weights.len(),
                j <= n,
                acc == dot(inputs@.take(j as int), self.weights@.take(j as int)),
                -(j as int) * 0x4000_0000_0000_0000 <= acc <= (j as int) * 0x4000_0000_0000_0000,
            decreases n - j,
        {
            proof {
                lemma_neuron_step(inputs@, self.weights@, j as int);
            }
            let x = inputs[j] as i128;
            let w = self.weights[j] as i128;
            assert(-0x4000_0000_0000_0000 <= x * w <= 0x4000_0000_0000_0000) by (nonlinear_arith)
                requires
                    -0x8000_0000 <= x < 0x8000_0000,
                    -0x8000_0000 <= w < 0x8000_0000,
            ;
            assert((j as int) * 0x4000_0000_0000_0000 <= 0x3fff_ffff_ffff_ffff_c000_0000_0000_0000)
                by (nonlinear_arith)
                requires
                    j < n <= usize::MAX,
                    usize::MAX <= 0xffff_ffff_ffff_ffff,
            ;
            acc = acc + x * w;
            j = j + 1;
        }
        assert(inputs@.take(n as int) =~= inputs@);
        assert(self.weights@.take(n as int) =~= self.weights@);
        assert((n as int) * 0x4000_0000_0000_0000 <= 0x3fff_ffff_ffff_ffff_c000_0000_0000_0000)
            by (nonlinear_arith)
            requires
                n <= usize::MAX,
                usize::MAX <= 0xffff_ffff_ffff_ffff,
        ;
        let s: i128 = (self.bias as i128) * (ONE as i128) + acc;
        if s <= 0 {
            0
        } else if s / (ONE as i128) > i32::MAX as i128 {
            i32::MAX
        } else {
            (s / (ONE as i128)) as i32
        }
    }
}

impl Layer {
    /// Every neuron's response to `inputs`, in order.
    pub fn propagate(&self, inputs: Vec<i32>) -> (r: Vec<i32>)
        requires
            layer_shaped(self@, inputs@.len()),
        ensures
            r@ == layer_output(self@, inputs@),
    {
        let mut out: Vec<i32> = Vec::new();
        let mut k: usize = 0;
        while k < self.neurons.len()
            invariant
                k <= self.neurons.len(),
                layer_shaped(self@, inputs@.len()),
                out@ =~= layer_output(self@, inputs@).take(k as int),
            decreases self.neurons.len() - k,
        {
            assert(self@[k as int] == self.neurons@[k as int]@);
            let o = self.neurons[k].propagate(&inputs);
            out.push(o);
            k = k + 1;
        }
        out
    }
}

/// Every bias and weight of the neuron lies in `[-bound, bound]`.
pub open spec fn neuron_within(n: NeuronModel, bound: int) -> bool {
    &&& -bound <= n.0 <= bound
    &&& forall|j: int| 0 <= j < n.1.len() ==> -bound <= #[trigger] n.1[j] <= bound
}

/// Every bias and weight of the network lies in `[-bound, bound]`.
pub open spec fn network_within(v: NetworkModel, bound: int) -> bool {
    forall|i: int, k: int|
        0 <= i < v.len() && 0 <= k < v[i].len() ==> neuron_within(#[trigger] v[i][k], bound)
}

pub open spec fn layers_view(s: Seq<Layer>) -> NetworkModel {
    s.map_values(|l: Layer| l@)
}

proof fn lemma_network_params_step(v: NetworkModel, i: int)
    requires
        0 <= i < v.len(),
    ensures
        network_params(v.take(i + 1)) == network_params(v.take(i)) + layer_params(v[i]),
{
    assert(v.take(i + 1).drop_last() =~= v.take(i));
}

proof fn lemma_layer_params_step(l: LayerModel, k: int)
    requires
        0 <= k < l.len(),
    ensures
        layer_params(l.take(k + 1)) == layer_params(l.take(k)) + neuron_params(l[k]),
{
    assert(l.take(k + 1).drop_last() =~= l.take(k));
}

proof fn lemma_layer_params_len(l: LayerModel, inputs: nat)
    requires
        layer_shaped(l, inputs),
    ensures
        layer_params(l).len() == l.len() * (inputs + 1),
    decreases l.len(),
{
    if l.len() > 0 {
        let d = l.drop_last();
        assert(layer_shaped(d, inputs)) by {
            assert forall|k: int| 0 <= k < d.len() implies (#[trigger] d[k]).1.len() == inputs by {
                assert(d[k] == l[k]);
            }
        }
        lemma_layer_params_len(d, inputs);
        assert(l[l.len() - 1].1.len() == inputs);
        assert(layer_params(l).len() == d.len() * (inputs + 1) + (inputs + 1));
        assert(d.len() * (inputs + 1) + (inputs + 1) == l.len() * (inputs + 1)) by (nonlinear_arith)
            requires
                d.len() + 1 == l.len(),
        ;
    }
}

proof fn lemma_shaped_prefix(v: NetworkModel, t: Seq<nat>, i: int)
    requires
        shaped(v, t),
        0 <= i <= v.len(),
    ensures
        shaped(v.take(i), t.take(i + 1)),
{
    let vi = v.take(i);
    let ti = t.take(i + 1);
    assert forall|j: int| 0 <= j < vi.len() implies (#[trigger] vi[j]).len() == ti[j + 1] by {
        assert(vi[j] == v[j]);
    }
    assert forall|j: int| 0 <= j < vi.len() implies layer_shaped(#[trigger] vi[j], ti[j]) by {
        assert(vi[j] == v[j]);
        assert(layer_shaped(v[j], t[j]));
    }
}

/// The genome of a network with the layer sizes of a topology has the
/// topology's genome length.
pub proof fn lemma_network_params_len(v: NetworkModel, t: Seq<nat>)
    requires
        shaped(v, t),
    ensures
        network_params(v).len() == param_count(t),
    decreases v.len(),
{
    if v.len() > 0 {
        let n = v.len() as int;
        lemma_shaped_prefix(v, t, n - 1);
        assert(v.take(n - 1) =~= v.drop_last());
        assert(t.take(n) =~= t.drop_last());
        lemma_network_params_len(v.drop_last(), t.drop_last());
        assert(layer_shaped(v[n - 1], t[n - 1]));
        lemma_layer_params_len(v[n - 1], t[n - 1]);
        assert(v[n - 1].len() * (t[n - 1] + 1) == (t[n - 1] + 1) * t[n]) by (nonlinear_arith)
            requires
                v[n - 1].len() == t[n],
        ;
    }
}

proof fn lemma_param_count_prefix(t: Seq<nat>, i: int)
    requires
        0 <= i < t.len() - 1,
    ensures
        param_count(t.take(i + 2)) == param_count(t.take(i + 1)) + (t[i] + 1) * t[i + 1],
        param_count(t.take(i + 2)) <= param_count(t),
    decreases t.len(),
{
    assert(t.take(i + 2).drop_last() =~= t.take(i + 1));
    if i + 2 < t.len() {
        lemma_param_count_prefix(t.drop_last(), i);
        assert(t.drop_last().take(i + 2) =~= t.take(i + 2));
        assert(t.drop_last().take(i + 1) =~= t.take(i + 1));
    } else {
        assert(t.take(i + 2) =~= t);
    }
}

/// Two sequences split at the same length agree on both parts.
proof fn lemma_split_equal(a1: Seq<i32>, b1: Seq<i32>, a2: Seq<i32>, b2: Seq<i32>)
    requires
        a1 + b1 == a2 + b2,
        a1.len() == a2.len(),
    ensures
        a1 == a2,
        b1 == b2,
{
    assert(a1 =~= (a1 + b1).subrange(0, a1.len() as int));
    assert(a2 =~= (a2 + b2).subrange(0, a2.len() as int));
    assert(b1 =~= (a1 + b1).subrange(a1.len() as int, (a1 + b1).len() as int));
    assert(b2 =~= (a2 + b2).subrange(a2.len() as int, (a2 + b2).len() as int));
}

proof fn lemma_layer_params_injective(a: LayerModel, b: LayerModel, inputs: nat)
    requires
        layer_shaped(a, inputs),
        layer_shaped(b, inputs),
        a.len() == b.len(),
        layer_params(a) == layer_params(b),
    ensures
        a == b,
    decreases a.len(),
{
    if a.len() > 0 {
        let n = a.len() as int;
        let (da, db) = (a.drop_last(), b.drop_last());
        assert(layer_shaped(da, inputs)) by {
            assert forall|k: int| 0 <= k < da.len() implies (#[trigger] da[k]).1.len() == inputs by {
                assert(da[k] == a[k]);
            }
        }
        assert(layer_shaped(db, inputs)) by {
            assert forall|k: int| 0 <= k < db.len() implies (#[trigger] db[k]).1.len() == inputs by {
                assert(db[k] == b[k]);
            }
        }
        lemma_layer_params_len(da, inputs);
        lemma_layer_params_len(db, inputs);
        lemma_split_equal(
            layer_params(da),
            neuron_params(a.last()),
            layer_params(db),
            neuron_params(b.last()),
        );
        lemma_layer_params_injective(da, db, inputs);
        let (na, nb) = (a.last(), b.last());
        assert(na.0 == neuron_params(na)[0]);
        assert(nb.0 == neuron_params(nb)[0]);
        assert(na.1 =~= neuron_params(na).subrange(1, neuron_params(na).len() as int));
        assert(nb.1 =~= neuron_params(nb).subrange(1, neuron_params(nb).len() as int));
        assert(a =~= da.push(na));
        assert(b =~= db.push(nb));
    } else {
        assert(a =~= b);
    }
}

proof fn lemma_network_params_injective(a: NetworkModel, b: NetworkModel, t: Seq<nat>)
    requires
        shaped(a, t),
        shaped(b, t),
        network_params(a) == network_params(b),
    ensures
        a == b,
    decreases a.len(),
{
    if a.len() > 0 {
        let n = a.len() as int;
        lemma_shaped_prefix(a, t, n - 1);
        lemma_shaped_prefix(b, t, n - 1);
        assert(a.take(n - 1) =~= a.drop_last());
        assert(b.take(n - 1) =~= b.drop_last());
        lemma_network_params_len(a.drop_last(), t.take(n));
        lemma_network_params_len(b.drop_last(), t.take(n));
        lemma_split_equal(
            network_params(a.drop_last()),
            layer_params(a.last()),
            network_params(b.drop_last()),
            layer_params(b.last()),
        );
        lemma_network_params_injective(a.drop_last(), b.drop_last(), t.take(n));
        assert(layer_shaped(a[n - 1], t[n - 1]));
        assert(layer_shaped(b[n - 1], t[n - 1]));
        lemma_layer_params_injective(a.last(), b.last(), t[n - 1]);
        assert(a =~= a.drop_last().push(a.last()));
        assert(b =~= b.drop_last().push(b.last()));
    } else {
        assert(a =~= b);
    }
}

/// Genome round trip: a network rebuilt from the genome of another network of
/// the same topology is that network, so it gives the same outputs for every
/// input.
pub proof fn lemma_genome_round_trip(topology: Seq<LayerTopology>, network: Network, rebuilt: Network)
    requires
        shaped(network@, sizes(topology)),
        shaped(rebuilt@, sizes(topology)),
        network_params(rebuilt@) == network_params(network@),
    ensures
        rebuilt@ == network@,
        forall|inputs: Seq<i32>|
            network_output(rebuilt@, inputs) == network_output(network@, inputs),
{
    lemma_network_params_injective(rebuilt@, network@, sizes(topology));
}

/// A weight drawn uniformly from `[-1, 1)`.
fn random_weight(rng: &mut ChaCha8Rng) -> (r: i32)
    ensures
        -ONE <= r < ONE,
{
    let u = unit_fraction(rng);
    (2 * u - ONE) as i32
}

impl Neuron {
    fn from_params(input_size: usize, params: &Vec<i32>, pos: usize) -> (r: Neuron)
        requires
            pos + input_size + 1 <= params.len(),
        ensures
            r.weights@.len() == input_size,
            neuron_params(r@) == params@.subrange(pos as int, pos + input_size + 1),
    {
        let bias = params[pos];
        let mut weights: Vec<i32> = Vec::new();
        let mut j: usize = 0;
        while j < input_size
            invariant
                j <= input_size,
                pos + input_size + 1 <= params.len(),
                weights@ =~= params@.subrange(pos + 1, pos + 1 + j),
            decreases input_size - j,
        {
            weights.push(params[pos + 1 + j]);
            j = j + 1;
        }
        let r = Neuron { bias, weights };
        assert(neuron_params(r@) =~= params@.subrange(pos as int, pos + input_size + 1));
        r
    }

    /// A neuron whose weights, then bias, are drawn uniformly from `[-1, 1)`.
    pub fn random(rng: &mut ChaCha8Rng, input_size: usize) -> (r: Neuron)
        ensures
            r.weights@.len() == input_size,
            neuron_within(r@, ONE as int),
    {
        let mut weights: Vec<i32> = Vec::new();
        let mut j: usize = 0;
        while j < input_size
            invariant
                j <= input_size,
                weights@.len() == j,
                forall|q: int| 0 <= q < j ==> -ONE <= #[trigger] weights@[q] <= ONE,
            decreases input_size - j,
        {
            let w = random_weight(rng);
            weights.push(w);
            j = j + 1;
        }
        let bias = random_weight(rng);
        Neuron { bias, weights }
    }

    /// A neuron with the same bias and weights.
    pub fn duplicate(&self) -> (r: Neuron)
        ensures
            r@ == self@,
    {
        let weights = self.weights.clone();
        assert(weights@ =~= self.weights@);
        Neuron { bias: self.bias, weights }
    }
}

impl Layer {
    fn from_params(input_size: usize, output_size: usize, params: &Vec<i32>, pos: usize) -> (r:
        Layer)
        requires
            pos + output_size * (input_size + 1) <= params.len(),
        ensures
            r@.len() == output_size,
            layer_shaped(r@, input_size as nat),
            layer_params(r@) == params@.subrange(
                pos as int,
                pos + output_size * (input_size + 1),
            ),
    {
        let mut neurons: Vec<Neuron> = Vec::new();
        let mut k: usize = 0;
        let mut p: usize = pos;
        while k < output_size
            invariant
                k <= output_size,
                p == pos + k * (input_size + 1),
                pos + output_size * (input_size + 1) <= params.len(),
                neurons@.len() == k,
                layer_shaped(neurons@.map_values(|n: Neuron| n@), input_size as nat),
                layer_params(neurons@.map_values(|n: Neuron| n@)) == params@.subrange(
                    pos as int,
                    p as int,
                ),
            decreases output_size - k,
        {
            assert((k + 1) * (input_size + 1) <= output_size * (input_size + 1)) by (nonlinear_arith)
                requires
                    k < output_size,
            ;
            assert(p + input_size + 1 == pos + (k + 1) * (input_size + 1)) by (nonlinear_arith)
                requires
                    p == pos + k * (input_size + 1),
            ;
            let n = Neuron::from_params(input_size, params, p);
            let ghost before = neurons@.map_values(|n: Neuron| n@);
            neurons.push(n);
            let ghost after = neurons@.map_values(|n: Neuron| n@);
            assert(after =~= before.push(n@));
            assert(after.drop_last() =~= before);
            assert(params@.subrange(pos as int, p + input_size + 1) =~= params@.subrange(
                pos as int,
                p as int,
            ) + params@.subrange(p as int, p + input_size + 1));
            p = p + input_size + 1;
            k = k + 1;
        }
        Layer { neurons }
    }

    fn random(rng: &mut ChaCha8Rng, input_size: usize, output_size: usize) -> (r: Layer)
        ensures
            r@.len() == output_size,
            layer_shaped(r@, input_size as nat),
            forall|k: int| 0 <= k < r@.len() ==> neuron_within(#[trigger] r@[k], ONE as int),
    {
        let mut neurons: Vec<Neuron> = Vec::new();
        let mut k: usize = 0;
        while k < output_size
            invariant
                k <= output_size,
                neurons@.len() == k,
                forall|q: int| 0 <= q < k ==> (#[trigger] neurons@[q]).weights@.len() == input_size,
                forall|q: int| 0 <= q < k ==> neuron_within(#[trigger] neurons@[q]@, ONE as int),
            decreases output_size - k,
        {
            let n = Neuron::random(rng, input_size);
            neurons.push(n);
            k = k + 1;
        }
        Layer { neurons }
    }

    /// A layer with the same neurons.
    pub fn duplicate(&self) -> (r: Layer)
        ensures
            r@ == self@,
    {
        let mut neurons: Vec<Neuron> = Vec::new();
        let mut k: usize = 0;
        while k < self.neurons.len()
            invariant
                k <= self.neurons.len(),
                neurons@.map_values(|n: Neuron| n@) =~= self@.take(k as int),
            decreases self.neurons.len() - k,
        {
            let n = self.neurons[k].duplicate();
            let ghost before = neurons@.map_values(|n: Neuron| n@);
            neurons.push(n);
            assert(neurons@.map_values(|n: Neuron| n@) =~= before.push(n@));
            k = k + 1;
        }
        assert(self@.take(self.neurons.len() as int) =~= self@);
        Layer { neurons }
    }
}

impl Network {
    /// The network made of these layers.
    pub fn new(layers: Vec<Layer>) -> (r: Network)
        requires
            well_formed(layers_view(layers@)),
        ensures
            r@ == layers_view(layers@),
            well_formed(r@),
    {
        Network { layers }
    }

    /// A network of the given topology with every bias and weight drawn
    /// uniformly from `[-1, 1)`.
    pub fn random(rng: &mut ChaCha8Rng, layers: &[LayerTopology]) -> (r: Network)
        requires
            layers@.len() > 1,
        ensures
            shaped(r@, sizes(layers@)),
            well_formed(r@),
            network_within(r@, ONE as int),
    {
        let ghost t = sizes(layers@);
        let mut built: Vec<Layer> = Vec::new();
        let mut i: usize = 0;
        while i < layers.len() - 1
            invariant
                layers@.len() > 1,
                t == sizes(layers@),
                i + 1 <= layers@.len(),
                shaped(layers_view(built@), t.take(i + 1)),
                network_within(layers_view(built@), ONE as int),
            decreases layers.len() - i,
        {
            let l = Layer::random(rng, layers[i].num_neuron, layers[i + 1].num_neuron);
            let ghost before = layers_view(built@);
            built.push(l);
            assert(layers_view(built@) =~= before.push(l@));
            i = i + 1;
        }
        assert(t.take(i + 1) =~= t);
        proof {
            lemma_shaped_well_formed(layers_view(built@), t);
        }
        Network { layers: built }
    }

    /// The network's response to `inputs`.
    pub fn propagate(&self, inputs: Vec<i32>) -> (r: Vec<i32>)
        requires
            well_formed(self@),
            inputs@.len() == input_size(self@),
        ensures
            r@ == network_output(self@, inputs@),
    {
        let ghost first = inputs@;
        let ghost v = self@;
        let mut cur = inputs;
        let mut i: usize = 0;
        while i < self.layers.len()
            invariant
                v == self@,
                i <= self.layers.len(),
                well_formed(v),
                cur@ == network_output(v.take(i as int), first),
                cur@.len() == topology_of(v)[i as int],
            decreases self.layers.len() - i,
        {
            assert(v.take(i + 1).drop_last() =~= v.take(i as int));
            assert(v[i as int] == self.layers@[i as int]@);
            assert(layer_shaped(v[i as int], topology_of(v)[i as int]));
            cur = self.layers[i].propagate(cur);
            i = i + 1;
        }
        assert(v.take(i as int) =~= v);
        cur
    }

    /// The genome: each neuron's bias then its weights, neuron by neuron,
    /// layer by layer.
    pub fn get_params(&self) -> (r: Vec<i32>)
        ensures
            r@ == network_params(self@),
    {
        let ghost v = self@;
        let mut out: Vec<i32> = Vec::new();
        let mut i: usize = 0;
        while i < self.layers.len()
            invariant
                v == self@,
                i <= self.layers.len(),
                out@ == network_params(v.take(i as int)),
            decreases self.layers.len() - i,
        {
            let layer = &self.layers[i];
            assert(v[i as int] == layer@);
            let mut k: usize = 0;
            while k < layer.neurons.len()
                invariant
                    v == self@,
                    i < self.layers.len(),
                    layer == self.layers@[i as int],
                    k <= layer.neurons.len(),
                    out@ == network_params(v.take(i as int)) + layer_params(layer@.take(k as int)),
                decreases layer.neurons.len() - k,
            {
                let neuron = &layer.neurons[k];
                assert(layer@[k as int] == neuron@);
                proof {
                    lemma_layer_params_step(layer@, k as int);
                }
                let ghost start = out@;
                out.push(neuron.bias);
                let mut j: usize = 0;
                while j < neuron.weights.len()
                    invariant
                        j <= neuron.weights.len(),
                        out@ == start + seq![neuron.bias] + neuron.weights@.take(j as int),
                    decreases neuron.weights.len() - j,
                {
                    out.push(neuron.weights[j]);
                    assert(neuron.weights@.take(j + 1) =~= neuron.weights@.take(j as int).push(
                        neuron.weights@[j as int],
                    ));
                    j = j + 1;
                }
                assert(neuron.weights@.take(j as int) =~= neuron.weights@);
                assert(out@ =~= network_params(v.take(i as int)) + layer_params(
                    layer@.take(k + 1),
                ));
                k = k + 1;
            }
            assert(layer@.take(k as int) =~= layer@);
            proof {
                lemma_network_params_step(v, i as int);
            }
            i = i + 1;
        }
        assert(v.take(i as int) =~= v);
        out
    }

    /// The network of the given topology that has `params` as its genome.
    pub fn from_params(layers: &[LayerTopology], params: Vec<i32>) -> (r: Network)
        requires
            layers@.len() > 1,
            params@.len() == param_count(sizes(layers@)),
        ensures
            shaped(r@, sizes(layers@)),
            well_formed(r@),
            network_params(r@) == params@,
    {
        let ghost t = sizes(layers@);
        let mut built: Vec<Layer> = Vec::new();
        let mut i: usize = 0;
        let mut pos: usize = 0;
        assert(t.take(1).len() < 2);
        while i < layers.len() - 1
            invariant
                layers@.len() > 1,
                t == sizes(layers@),
                i + 1 <= layers@.len(),
                params@.len() == param_count(t),
                pos == param_count(t.take(i + 1)),
                shaped(layers_view(built@), t.take(i + 1)),
                network_params(layers_view(built@)) == params@.take(pos as int),
            decreases layers.len() - i,
        {
            proof {
                lemma_param_count_prefix(t, i as int);
            }
            let input = layers[i].num_neuron;
            let output = layers[i + 1].num_neuron;
            assert(output * (input + 1) == (t[i as int] + 1) * t[i + 1]) by (nonlinear_arith)
                requires
                    input == t[i as int],
                    output == t[i + 1],
            ;
            assert(output * input + output == output * (input + 1)) by (nonlinear_arith);
            assert(output * input <= output * input + output);
            let l = Layer::from_params(input, output, &params, pos);
            let ghost before = layers_view(built@);
            built.push(l);
            assert(layers_view(built@) =~= before.push(l@));
            assert(layers_view(built@).drop_last() =~= before);
            assert(params@.take(pos + output * (input + 1)) =~= params@.take(pos as int)
                + params@.subrange(pos as int, pos + output * (input + 1)));
            let plen = params.len();
            assert(pos + output * input + output <= plen);
            pos = pos + (output * input + output);
            i = i + 1;
        }
        assert(t.take(i + 1) =~= t);
        assert(params@.take(pos as int) =~= params@);
        proof {
            lemma_shaped_well_formed(layers_view(built@), t);
        }
        Network { layers: built }
    }

    /// A network with the same layers.
    pub fn duplicate(&self) -> (r: Network)
        ensures
            r@ == self@,
    {
        let mut layers: Vec<Layer> = Vec::new();
        let mut i: usize = 0;
        while i < self.layers.len()
            invariant
                i <= self.layers.len(),
                layers_view(layers@) =~= self@.take(i as int),
            decreases self.layers.len() - i,
        {
            let l = self.layers[i].duplicate();
            let ghost before = layers_view(layers@);
            layers.push(l);
            assert(layers_view(layers@) =~= before.push(l@));
            i = i + 1;
        }
        assert(self@.take(self.layers.len() as int) =~= self@);
        Network { layers }
    }
}

} // verus!
