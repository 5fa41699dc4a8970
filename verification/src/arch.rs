//! Network architecture: layer shapes, well-formedness, and the width a
//! forward pass produces.
//!
//! A dense layer multiplies a `1×input_size` row by an
//! `input_size×size` weight matrix and adds a `1×size` bias, so its
//! output is a `1×size` row. These shapes, not the numeric values, decide
//! whether a forward pass is defined and how long its output is.

use vstd::prelude::*;

use crate::loss::LossType;

verus! {

/// The activation a layer applies. The scale parameters some activations
/// carry (the leak and ELU factors) live with the numeric engine; the tag
/// alone decides shape and pairing rules.
#[derive(Debug, Clone, Copy, PartialEq, Eq, Structural)]
pub enum ActivationKind {
    Sigmoid,
    ReLU,
    Identity,
    Softmax,
    Tanh,
    LeakyReLU,
    Elu,
    Gelu,
    Swish,
}

/// The shape of one dense layer: `size` neurons fed by `input_size`
/// values, then `activation`.
#[derive(Debug, Clone, Copy, PartialEq, Eq, Structural)]
pub struct LayerShape {
    pub size: usize,
    pub input_size: usize,
    pub activation: ActivationKind,
}

/// A well-formed network: at least one layer, each with at least one
/// neuron, the first fed by `input_width` values and every later layer
/// fed by exactly the previous layer's output.
pub open spec fn network_shape_wf(layers: Seq<LayerShape>, input_width: nat) -> bool {
    &&& layers.len() > 0
    &&& forall|i: int| 0 <= i < layers.len() ==> #[trigger] layers[i].size >= 1
    &&& layers[0].input_size == input_width
    &&& forall|i: int|
        1 <= i < layers.len() ==> #[trigger] layers[i].input_size == layers[i - 1].size
}

/// The width of the row a forward pass produces from a `width`-wide
/// input, or `None` where a layer's input size does not match and the
/// matrix product is undefined.
pub open spec fn forward_width(layers: Seq<LayerShape>, width: nat) -> Option<nat>
    decreases layers.len(),
{
    if layers.len() == 0 {
        Some(width)
    } else if layers[0].input_size == width {
        forward_width(layers.skip(1), layers[0].size as nat)
    } else {
        None
    }
}

/// For any well-formed network, the forward pass is defined and its
/// output length equals the output layer's size.
#[verifier::rlimit(60)]
pub proof fn lemma_forward_width_of_wf(layers: Seq<LayerShape>, input_width: nat)
    requires
        network_shape_wf(layers, input_width),
    ensures
        forward_width(layers, input_width) == Some(layers.last().size as nat),
    decreases layers.len(),
{
    if layers.len() == 1 {
        assert(layers.skip(1) =~= Seq::<LayerShape>::empty());
        assert(forward_width(layers, input_width) == forward_width(
            layers.skip(1),
            layers[0].size as nat,
        ));
        assert(layers.last() == layers[0]);
    } else {
        let rest = layers.skip(1);
        assert forall|i: int| 1 <= i < rest.len() implies #[trigger] rest[i].input_size
            == rest[i - 1].size by {
            assert(rest[i] == layers[i + 1]);
            assert(rest[i - 1] == layers[i]);
            assert(layers[i + 1].input_size == layers[i].size);
        }
        assert forall|i: int| 0 <= i < rest.len() implies #[trigger] rest[i].size >= 1 by {
            assert(rest[i] == layers[i + 1]);
            assert(layers[i + 1].size >= 1);
        }
        assert(rest[0] == layers[1]);
        assert(layers[1].input_size == layers[0].size);
        assert(network_shape_wf(rest, layers[0].size as nat));
        lemma_forward_width_of_wf(rest, layers[0].size as nat);
        assert(forward_width(layers, input_width) == forward_width(
            rest,
            layers[0].size as nat,
        ));
        assert(rest.last() == layers.last());
    }
}

/// Computes the width of the row a forward pass would produce from a
/// `width`-wide input, or nothing where a layer's shape does not match.
/// On a well-formed network this is the output layer's size.
pub fn forward_output_width(layers: &Vec<LayerShape>, width: usize) -> (r: Option<usize>)
    ensures
        match r {
            Some(w) => forward_width(layers@, width as nat) == Some(w as nat),
            None => forward_width(layers@, width as nat) is None,
        },
{
    let n = layers.len();
    let mut current = width;
    let mut i: usize = 0;
    proof {
        assert(layers@.skip(0) =~= layers@);
    }
    while i < n
        invariant
            n == layers@.len(),
            i <= n,
            forward_width(layers@, width as nat) == forward_width(
                layers@.skip(i as int),
                current as nat,
            ),
        decreases n - i,
    {
        if layers[i].input_size != current {
            proof {
                assert(layers@.skip(i as int)[0] == layers@[i as int]);
            }
            return None;
        }
        proof {
            assert(layers@.skip(i as int)[0] == layers@[i as int]);
            assert(layers@.skip(i as int).skip(1) =~= layers@.skip(i as int + 1));
        }
        current = layers[i].size;
        i += 1;
    }
    proof {
        assert(layers@.skip(n as int) =~= Seq::<LayerShape>::empty());
    }
    Some(current)
}

/// Checks that `layers` forms a well-formed network on `input_width`
/// inputs.
#[verifier::rlimit(60)]
pub fn check_network_shape(layers: &Vec<LayerShape>, input_width: usize) -> (b: bool)
    ensures
        b == network_shape_wf(layers@, input_width as nat),
{
    let n = layers.len();
    if n == 0 {
        return false;
    }
    if layers[0].input_size != input_width {
        return false;
    }
    let mut i: usize = 0;
    while i < n
        invariant
            n == layers@.len(),
            n > 0,
            i <= n,
            layers@[0].input_size == input_width,
            forall|j: int| 0 <= j < i ==> #[trigger] layers@[j].size >= 1,
            forall|j: int| 1 <= j < i ==> #[trigger] layers@[j].input_size == layers@[j
                - 1].size,
        decreases n - i,
    {
        if layers[i].size < 1 {
            return false;
        }
        if i >= 1 && layers[i].input_size != layers[i - 1].size {
            return false;
        }
        i += 1;
    }
    true
}

/// Builds the layer chain the architect form describes: each row gives a
/// neuron count and an activation, and each layer's input size is the
/// previous row's neuron count, starting from `input_size`.
pub fn chain_layer_sizes(input_size: usize, rows: &Vec<(usize, ActivationKind)>) -> (r: Vec<
    LayerShape,
>)
    ensures
        r@.len() == rows@.len(),
        forall|i: int|
            0 <= i < rows@.len() ==> (#[trigger] r@[i]).size == rows@[i].0 && r@[i].activation
                == rows@[i].1,
        forall|i: int| 1 <= i < rows@.len() ==> (#[trigger] r@[i]).input_size == rows@[i - 1].0,
        rows@.len() > 0 ==> r@[0].input_size == input_size,
        (rows@.len() > 0 && (forall|i: int| 0 <= i < rows@.len() ==> (#[trigger] rows@[i]).0
            >= 1)) ==> network_shape_wf(r@, input_size as nat),
{
    let n = rows.len();
    let mut r: Vec<LayerShape> = Vec::new();
    let mut prev: usize = input_size;
    let mut i: usize = 0;
    while i < n
        invariant
            n == rows@.len(),
            i <= n,
            r@.len() == i,
            prev == (if i == 0 {
                input_size
            } else {
                rows@[i - 1].0
            }),
            forall|j: int|
                0 <= j < i ==> (#[trigger] r@[j]).size == rows@[j].0 && r@[j].activation
                    == rows@[j].1,
            forall|j: int| 1 <= j < i ==> (#[trigger] r@[j]).input_size == rows@[j - 1].0,
            i > 0 ==> r@[0].input_size == input_size,
        decreases n - i,
    {
        let (size, activation) = rows[i];
        r.push(LayerShape { size, input_size: prev, activation });
        prev = size;
        i += 1;
    }
    r
}

/// Which variance-scaled scheme initializes a layer's weights.
#[derive(Debug, Clone, Copy, PartialEq, Eq, Structural)]
pub enum WeightInit {
    /// N(0, 2/fan_in); the doubled variance makes up for ReLU zeroing
    /// half of its inputs on average.
    He,
    /// N(0, 1/fan_in); keeps activation variance steady across layers
    /// for saturating activations.
    Xavier,
}

/// Picks the weight initialization for a layer by its activation: He
/// before ReLU, Xavier before everything else.
pub fn weight_init_for(activation: ActivationKind) -> (r: WeightInit)
    ensures
        r == WeightInit::He <==> activation == ActivationKind::ReLU,
{
    match activation {
        ActivationKind::ReLU => WeightInit::He,
        _ => WeightInit::Xavier,
    }
}

/// Whether an output head is consistent: a Softmax output layer pairs
/// with cross-entropy loss, and cross-entropy pairs only with Softmax.
pub open spec fn head_pairing_ok(last_activation: ActivationKind, loss: LossType) -> bool {
    (last_activation == ActivationKind::Softmax) <==> (loss == LossType::CrossEntropy)
}

/// Checks the Softmax-and-cross-entropy pairing rule for a network head.
pub fn check_head_pairing(last_activation: ActivationKind, loss: LossType) -> (b: bool)
    ensures
        b == head_pairing_ok(last_activation, loss),
{
    let is_softmax = match last_activation {
        ActivationKind::Softmax => true,
        _ => false,
    };
    let is_ce = match loss {
        LossType::CrossEntropy => true,
        _ => false,
    };
    is_softmax == is_ce
}

} // verus!
