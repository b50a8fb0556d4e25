//! A fixed-topology feed-forward network with rectified-linear neurons.
//!
//! The parameters are held as one genome: for each layer in order, for each of
//! its neurons in order, the bias and then one weight per input. Weights,
//! biases, inputs and outputs are fixed-point values.

use vstd::prelude::*;
use rand::rngs::StdRng;
use crate::fixed::{ONE, i32_max};
use crate::random::draw_range;

verus! {

/// The size of one layer.
#[derive(Clone, Copy, Debug, PartialEq, Eq)]
pub struct LayerTopology {
    pub neurons: usize,
}

/// A neuron as a bias and its weights.
pub type NeuronView = (i32, Seq<i32>);

/// The layer sizes of a topology.
pub open spec fn sizes_of(topology: Seq<LayerTopology>) -> Seq<usize> {
    topology.map_values(|t: LayerTopology| t.neurons)
}

/// Genes used by layer `l`: each of its neurons has a bias and one weight per input.
pub open spec fn layer_genes(s: Seq<usize>, l: int) -> int {
    s[l + 1] * (1 + s[l])
}

/// Where the genes of layer `l` start.
pub open spec fn layer_offset(s: Seq<usize>, l: int) -> int
    decreases l,
{
    if l <= 0 { 0 } else { layer_offset(s, l - 1) + layer_genes(s, l - 1) }
}

/// Where the genes of neuron `j` of layer `l` start.
pub open spec fn neuron_offset(s: Seq<usize>, l: int, j: int) -> int {
    layer_offset(s, l) + j * (1 + s[l])
}

/// Number of genes of a network with layer sizes `s`.
pub open spec fn genome_len(s: Seq<usize>) -> int {
    layer_offset(s, s.len() - 1)
}

/// The network that the genome `g` describes for layer sizes `s`: neuron `j`
/// of layer `l` takes its bias and weights from where that neuron's genes start.
pub open spec fn decode(s: Seq<usize>, g: Seq<i32>) -> Seq<Seq<NeuronView>> {
    Seq::new((s.len() - 1) as nat, |l: int| Seq::new(s[l + 1] as nat, |j: int|
        (g[neuron_offset(s, l, j)], Seq::new(s[l] as nat, |k: int| g[neuron_offset(s, l, j) + 1 + k]))))
}

/// `Σ a[k] * b[k]` over the indices of `a`.
pub open spec fn dot(a: Seq<i32>, b: Seq<i32>) -> int
    decreases a.len(),
{
    if a.len() == 0 { 0 } else { dot(a.drop_last(), b) + a.last() * b[a.len() - 1] }
}

/// Rectified-linear activation of a pre-activation scaled by `ONE * ONE`,
/// saturated at the largest `i32`.
pub open spec fn activation(pre: int) -> int {
    if pre <= 0 {
        0
    } else if pre / (ONE as int) > i32_max() {
        i32_max()
    } else {
        pre / (ONE as int)
    }
}

/// `max(0, bias + Σ input * weight)` in fixed point.
pub open spec fn neuron_spec(n: NeuronView, inputs: Seq<i32>) -> i32 {
    activation(n.0 * ONE + dot(inputs, n.1)) as i32
}

pub open spec fn layer_spec(layer: Seq<NeuronView>, inputs: Seq<i32>) -> Seq<i32> {
    layer.map_values(|n: NeuronView| neuron_spec(n, inputs))
}

/// The inputs carried through each layer in turn.
pub open spec fn propagate_spec(layers: Seq<Seq<NeuronView>>, inputs: Seq<i32>) -> Seq<i32>
    decreases layers.len(),
{
    if layers.len() == 0 {
        inputs
    } else {
        layer_spec(layers.last(), propagate_spec(layers.drop_last(), inputs))
    }
}

#[derive(Debug)]
pub struct Network {
    sizes: Vec<usize>,
    genes: Vec<i32>,
}

impl Network {
    /// Layer sizes, inputs first.
    pub closed spec fn sizes(&self) -> Seq<usize> {
        self.sizes@
    }

    /// The parameters in genome order.
    pub closed spec fn genome(&self) -> Seq<i32> {
        self.genes@
    }

    /// Layers of neurons, each a bias and its weights.
    pub open spec fn layers(&self) -> Seq<Seq<NeuronView>> {
        decode(self.sizes(), self.genome())
    }

    pub open spec fn wf(&self) -> bool {
        &&& self.sizes().len() >= 2
        &&& self.genome().len() == genome_len(self.sizes())
    }
}

impl Network {
    /// A network whose every bias and weight is drawn uniformly from `[-ONE, ONE]`.
    pub fn random(rng: &mut StdRng, topology: &[LayerTopology]) -> (r: Network)
        requires
            topology@.len() >= 2,
            genome_len(sizes_of(topology@)) <= usize::MAX,
        ensures
            r.wf(),
            r.sizes() == sizes_of(topology@),
            forall|i: int| 0 <= i < r.genome().len() ==> -ONE <= #[trigger] r.genome()[i] <= ONE,
    {
        let sizes = sizes_vec(topology);
        let ghost s = sizes@;
        let mut genes: Vec<i32> = Vec::new();
        let mut l: usize = 0;
        let n_sizes = sizes.len();
        while l < n_sizes - 1
            invariant
                n_sizes == s.len(),
                s == sizes@,
                s.len() >= 2,
                genome_len(s) <= usize::MAX,
                0 <= l < s.len(),
                genes@.len() == layer_offset(s, l as int),
                forall|i: int| 0 <= i < genes@.len() ==> -ONE <= #[trigger] genes@[i] <= ONE,
            decreases s.len() - l,
        {
            let inputs = sizes[l];
            let outputs = sizes[l + 1];
            proof {
                lemma_layer_offset_monotone(s, l as int + 1, s.len() - 1);
            }
            let mut j: usize = 0;
            while j < outputs
                invariant
                    s == sizes@,
                    l + 1 < s.len(),
                    genome_len(s) <= usize::MAX,
                    layer_offset(s, l as int + 1) <= genome_len(s),
                    inputs == s[l as int],
                    outputs == s[l + 1],
                    0 <= j <= outputs,
                    genes@.len() == neuron_offset(s, l as int, j as int),
                    forall|i: int| 0 <= i < genes@.len() ==> -ONE <= #[trigger] genes@[i] <= ONE,
                decreases outputs - j,
            {
                proof {
                    lemma_neuron_in_layer(s, l as int, j as int);
                }
                genes.push(random_gene(rng));
                let mut k: usize = 0;
                while k < inputs
                    invariant
                        s == sizes@,
                        l + 1 < s.len(),
                        inputs == s[l as int],
                        0 <= j < outputs,
                        outputs == s[l + 1],
                        0 <= k <= inputs,
                        neuron_offset(s, l as int, j as int) + 1 + inputs <= genome_len(s) <= usize::MAX,
                        genes@.len() == neuron_offset(s, l as int, j as int) + 1 + k,
                        forall|i: int| 0 <= i < genes@.len() ==> -ONE <= #[trigger] genes@[i] <= ONE,
                    decreases inputs - k,
                {
                    genes.push(random_gene(rng));
                    k += 1;
                }
                j += 1;
            }
            proof {
                assert(neuron_offset(s, l as int, outputs as int) == layer_offset(s, l as int + 1)) by (nonlinear_arith)
                    requires
                        outputs == s[l + 1],
                        layer_offset(s, l as int + 1) == layer_offset(s, l as int) + s[l + 1] * (1 + s[l as int]),
                        neuron_offset(s, l as int, outputs as int) == layer_offset(s, l as int) + outputs * (1 + s[l as int]),
                ;
            }
            l += 1;
        }
        Network { sizes, genes }
    }

    /// The genome of this network: biases and weights in genome order.
    pub fn weights(&self) -> (r: Vec<i32>)
        ensures
            r@ == self.genome(),
    {
        let r = self.genes.clone();
        assert(r@ =~= self.genes@);
        r
    }

    /// The network that `weights` describes for `topology`, in genome order.
    pub fn from_weights(topology: &[LayerTopology], weights: Vec<i32>) -> (r: Network)
        requires
            topology@.len() >= 2,
            weights@.len() == genome_len(sizes_of(topology@)),
        ensures
            r.wf(),
            r.sizes() == sizes_of(topology@),
            r.genome() == weights@,
            r.layers() == decode(sizes_of(topology@), weights@),
    {
        Network { sizes: sizes_vec(topology), genes: weights }
    }

    /// Number of inputs the network takes.
    pub fn input_len(&self) -> (r: usize)
        requires
            self.wf(),
        ensures
            r == self.sizes()[0],
    {
        self.sizes[0]
    }

    /// Number of outputs the network gives.
    pub fn output_len(&self) -> (r: usize)
        requires
            self.wf(),
        ensures
            r == self.sizes().last(),
    {
        self.sizes[self.sizes.len() - 1]
    }

    /// Carries `inputs` through every layer; each neuron gives
    /// `max(0, bias + Σ input * weight)`.
    pub fn propagate(&self, inputs: Vec<i32>) -> (r: Vec<i32>)
        requires
            self.wf(),
            inputs@.len() == self.sizes()[0],
        ensures
            r@ == propagate_spec(self.layers(), inputs@),
            r@.len() == self.sizes().last(),
    {
        let ghost s = self.sizes();
        let ghost layers = self.layers();
        let mut values = inputs;
        let mut l: usize = 0;
        assert(layers.take(0) =~= Seq::<Seq<NeuronView>>::empty());
        let n_sizes = self.sizes.len();
        while l < n_sizes - 1
            invariant
                n_sizes == s.len(),
                self.wf(),
                s == self.sizes(),
                layers == self.layers(),
                0 <= l < s.len(),
                values@.len() == s[l as int],
                values@ == propagate_spec(layers.take(l as int), inputs@),
            decreases s.len() - l,
        {
            let next = self.layer_output(l, &values);
            assert(layers.take(l as int + 1).drop_last() =~= layers.take(l as int));
            values = next;
            l += 1;
        }
        assert(layers.take(l as int) =~= layers);
        values
    }

    fn layer_output(&self, l: usize, inputs: &Vec<i32>) -> (r: Vec<i32>)
        requires
            self.wf(),
            l + 1 < self.sizes().len(),
            inputs@.len() == self.sizes()[l as int],
        ensures
            r@ == layer_spec(self.layers()[l as int], inputs@),
            r@.len() == self.sizes()[l + 1],
    {
        let ghost s = self.sizes();
        let n_sizes = self.sizes.len();
        let outputs = self.sizes[l + 1];
        let mut out: Vec<i32> = Vec::new();
        let mut j: usize = 0;
        proof {
            lemma_layer_offset_monotone(s, l as int + 1, s.len() - 1);
        }
        while j < outputs
            invariant
                self.wf(),
                s == self.sizes(),
                l + 1 < s.len(),
                outputs == s[l + 1],
                inputs@.len() == s[l as int],
                0 <= j <= outputs,
                layer_offset(s, l as int + 1) <= genome_len(s),
                out@ =~= layer_spec(self.layers()[l as int], inputs@).take(j as int),
            decreases outputs - j,
        {
            proof {
                lemma_neuron_in_layer(s, l as int, j as int);
            }
            let v = self.neuron_output(l, j, inputs);
            out.push(v);
            j += 1;
        }
        out
    }

    fn neuron_output(&self, l: usize, j: usize, inputs: &Vec<i32>) -> (r: i32)
        requires
            self.wf(),
            l + 1 < self.sizes().len(),
            j < self.sizes()[l + 1],
            inputs@.len() == self.sizes()[l as int],
            neuron_offset(self.sizes(), l as int, j as int) + 1 + self.sizes()[l as int] <= genome_len(self.sizes()),
        ensures
            r == neuron_spec(self.layers()[l as int][j as int], inputs@),
    {
        let ghost s = self.sizes();
        let ghost n = self.layers()[l as int][j as int];
        let o: usize = self.neuron_start(l, j);
        let count = inputs.len();
        let glen = self.genes.len();
        let mut acc: i128 = 0;
        let mut k: usize = 0;
        assert(n.1 =~= Seq::new(s[l as int] as nat, |k: int| self.genes@[o + 1 + k]));
        while k < count
            invariant
                self.wf(),
                s == self.sizes(),
                l + 1 < s.len(),
                j < s[l + 1],
                n == self.layers()[l as int][j as int],
                forall|i: int| 0 <= i < count ==> n.1[i] == self.genes@[o + 1 + i],
                o == neuron_offset(s, l as int, j as int),
                o + 1 + count <= self.genome().len(),
                glen == self.genes@.len(),
                count == inputs@.len(),
                count == s[l as int],
                n.1.len() == count,
                0 <= k <= count,
                acc == dot(inputs@.take(k as int), n.1),
                -(k * 0x4000_0000_0000_0000) <= acc <= k * 0x4000_0000_0000_0000,
            decreases count - k,
        {
            let x = inputs[k];
            let w = self.genes[o + 1 + k];
            assert(w == n.1[k as int]);
            assert(-0x4000_0000_0000_0000 <= x * w <= 0x4000_0000_0000_0000) by (nonlinear_arith)
                requires
                    i32::MIN <= x <= i32::MAX,
                    i32::MIN <= w <= i32::MAX,
            ;
            assert(inputs@.take(k as int + 1).drop_last() =~= inputs@.take(k as int));
            acc = acc + (x as i128) * (w as i128);
            k += 1;
        }
        assert(inputs@.take(count as int) =~= inputs@);
        let bias = self.genes[o] as i128;
        let pre = bias * (ONE as i128) + acc;
        if pre <= 0 {
            0
        } else if pre / (ONE as i128) > 0x7fff_ffff {
            0x7fff_ffff
        } else {
            (pre / (ONE as i128)) as i32
        }
    }

    /// Where the genes of neuron `j` of layer `l` start.
    fn neuron_start(&self, l: usize, j: usize) -> (r: usize)
        requires
            self.wf(),
            l + 1 < self.sizes().len(),
            j < self.sizes()[l + 1],
        ensures
            r == neuron_offset(self.sizes(), l as int, j as int),
    {
        let ghost s = self.sizes();
        let glen = self.genes.len();
        let mut off: usize = 0;
        let mut m: usize = 0;
        proof {
            lemma_layer_offset_monotone(s, l as int + 1, s.len() - 1);
            lemma_neuron_in_layer(s, l as int, j as int);
        }
        while m < l
            invariant
                s == self.sizes(),
                self.wf(),
                glen == self.genes@.len(),
                l + 1 < s.len(),
                0 <= m <= l,
                off == layer_offset(s, m as int),
                layer_offset(s, l as int) <= genome_len(s),
            decreases l - m,
        {
            proof {
                lemma_layer_offset_monotone(s, m as int + 1, l as int);
                let (a, b) = (s[m as int + 1] as int, s[m as int] as int);
                assert(0 <= a * b && a + a * b == a * (1 + b)) by (nonlinear_arith)
                    requires
                        a >= 0,
                        b >= 0,
                ;
            }
            let outs = self.sizes[m + 1];
            off = off + outs + outs * self.sizes[m];
            m += 1;
        }
        proof {
            let (a, b) = (j as int, s[l as int] as int);
            assert(0 <= a * b && a + a * b == a * (1 + b)) by (nonlinear_arith)
                requires
                    a >= 0,
                    b >= 0,
            ;
        }
        off + j + j * self.sizes[l]
    }
}

fn random_gene(rng: &mut StdRng) -> (r: i32)
    ensures
        -ONE <= r <= ONE,
{
    (draw_range(rng, 0, 2 * ONE as u64) as i64 - ONE) as i32
}

fn sizes_vec(topology: &[LayerTopology]) -> (r: Vec<usize>)
    ensures
        r@ == sizes_of(topology@),
{
    let mut r: Vec<usize> = Vec::new();
    let mut i: usize = 0;
    while i < topology.len()
        invariant
            0 <= i <= topology@.len(),
            r@ =~= sizes_of(topology@).take(i as int),
        decreases topology@.len() - i,
    {
        r.push(topology[i].neurons);
        i += 1;
    }
    r
}

pub proof fn lemma_layer_offset_monotone(s: Seq<usize>, l: int, m: int)
    requires
        0 <= l <= m < s.len(),
    ensures
        layer_offset(s, l) <= layer_offset(s, m),
    decreases m - l,
{
    if l < m {
        lemma_layer_offset_monotone(s, l, m - 1);
        assert(layer_genes(s, m - 1) >= 0) by (nonlinear_arith)
            requires
                s[m] >= 0,
                s[m - 1] >= 0,
        ;
    }
}

/// Inside a layer, neuron `j`'s genes come after those of the neurons before it
/// and end before the next layer.
proof fn lemma_neuron_in_layer(s: Seq<usize>, l: int, j: int)
    requires
        0 <= l,
        l + 1 < s.len(),
        0 <= j < s[l + 1],
    ensures
        layer_offset(s, l) <= neuron_offset(s, l, j),
        neuron_offset(s, l, j) + 1 + s[l] <= layer_offset(s, l + 1),
        neuron_offset(s, l, j) + 1 + s[l] == neuron_offset(s, l, j + 1),
{
    let w = 1 + s[l] as int;
    assert(0 <= j * w && j * w + w <= s[l + 1] * w && j * w + w == (j + 1) * w) by (nonlinear_arith)
        requires
            0 <= j < s[l + 1],
            w >= 1,
    ;
}

/// Propagation is a function of the network's neurons and the inputs alone:
/// two runs of [`Network::propagate`] on the same network and inputs agree.
pub proof fn lemma_propagate_deterministic(net: Network, inputs: Seq<i32>, first: Seq<i32>, second: Seq<i32>)
    requires
        first == propagate_spec(net.layers(), inputs),
        second == propagate_spec(net.layers(), inputs),
    ensures
        first == second,
{
}

/// Rebuilding a network from its own genome under its own topology is loss-less:
/// the genome has the length the topology asks for, decodes to the very same
/// neurons, and so gives the same activations on every input.
pub proof fn lemma_genome_round_trip(net: Network, topology: Seq<LayerTopology>)
    requires
        net.wf(),
        sizes_of(topology) == net.sizes(),
    ensures
        net.genome().len() == genome_len(sizes_of(topology)),
        decode(sizes_of(topology), net.genome()) == net.layers(),
        forall|inputs: Seq<i32>| #[trigger] propagate_spec(decode(sizes_of(topology), net.genome()), inputs)
            == propagate_spec(net.layers(), inputs),
{
}

} // verus!
