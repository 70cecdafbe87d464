//! A decoded network whose layer shapes have been checked to chain together.
use vstd::prelude::*;
use crate::error::MlpError;
use crate::format::{decode, layers_view, parse_weights_and_biases, Layer, LayerModel};

verus! {

/// Each layer holds `rows * cols` weights and `cols` biases, and takes as many
/// inputs as the layer before it gives outputs.
pub open spec fn shapes_consistent(ls: Seq<LayerModel>) -> bool {
    &&& forall|i: int|
        0 <= i < ls.len() ==> {
            &&& (#[trigger] ls[i]).weights.len() == ls[i].rows * ls[i].cols
            &&& ls[i].bias.len() == ls[i].cols
        }
    &&& forall|i: int| 0 < i < ls.len() ==> (#[trigger] ls[i]).rows == ls[i - 1].cols
}

/// Whether decoded layers make a usable model, and if not, why.
pub open spec fn validate(ls: Seq<LayerModel>) -> Result<(), MlpError> {
    if ls.len() == 0 {
        Err(MlpError::EmptyModel)
    } else if !shapes_consistent(ls) {
        Err(MlpError::ShapeMismatch)
    } else if ls.last().cols == 0 {
        Err(MlpError::EmptyModel)
    } else {
        Ok(())
    }
}

/// The model that a byte stream describes: decoded, then validated.
pub open spec fn build(b: Seq<u8>) -> Result<Seq<LayerModel>, MlpError> {
    match decode(b) {
        Err(e) => Err(e),
        Ok(ls) => match validate(ls) {
            Err(e) => Err(e),
            Ok(_) => Ok(ls),
        },
    }
}

/// A multilayer perceptron: dense layers with a rectified linear activation
/// after each hidden layer and a softmax after the last.
pub struct MLP {
    layers: Vec<Layer>,
}

impl View for MLP {
    type V = Seq<LayerModel>;

    closed spec fn view(&self) -> Seq<LayerModel> {
        layers_view(self.layers@)
    }
}

fn check_shapes(layers: &Vec<Layer>) -> (r: Result<(), MlpError>)
    ensures
        r == validate(layers_view(layers@)),
{
    let ghost ls = layers_view(layers@);
    let n = layers.len();
    if n == 0 {
        return Err(MlpError::EmptyModel);
    }
    let mut i: usize = 0;
    while i < n
        invariant
            n == layers@.len(),
            ls == layers_view(layers@),
            i <= n,
            forall|j: int|
                0 <= j < i ==> {
                    &&& (#[trigger] ls[j]).weights.len() == ls[j].rows * ls[j].cols
                    &&& ls[j].bias.len() == ls[j].cols
                },
            forall|j: int| 0 < j < i ==> (#[trigger] ls[j]).rows == ls[j - 1].cols,
        decreases n - i,
    {
        let layer = &layers[i];
        let rows = layer.rows();
        let cols = layer.cols();
        let n_weights = layer.weights().len();
        let n_bias = layer.bias().len();
        assert(ls[i as int] == layers@[i as int]@);
        let ok_weights = match rows.checked_mul(cols) {
            Some(p) => n_weights == p,
            None => false,
        };
        let ok_link = if i == 0 {
            true
        } else {
            let prev = layers[i - 1].cols();
            assert(ls[i - 1] == layers@[i - 1]@);
            prev == rows
        };
        if !ok_weights || n_bias != cols || !ok_link {
            return Err(MlpError::ShapeMismatch);
        }
        i += 1;
    }
    if layers[n - 1].cols() == 0 {
        return Err(MlpError::EmptyModel);
    }
    Ok(())
}

impl MLP {
    /// Holds layers that make a usable model.
    pub open spec fn well_formed(&self) -> bool {
        validate(self@) is Ok
    }

    /// Decodes and validates a model. Fails on a truncated stream or a negative
    /// dimension, on layers whose shapes do not chain, and on a model with no
    /// layer or no output.
    pub fn new(data: &[u8]) -> (r: Result<MLP, MlpError>)
        ensures
            match build(data@) {
                Ok(ls) => r.is_ok() && r.unwrap()@ == ls && r.unwrap().well_formed(),
                Err(e) => r == Err::<MLP, MlpError>(e),
            },
    {
        let layers = parse_weights_and_biases(data)?;
        check_shapes(&layers)?;
        Ok(MLP { layers })
    }

    /// The layers, first to last.
    pub fn layers(&self) -> (r: &Vec<Layer>)
        ensures
            layers_view(r@) == self@,
    {
        &self.layers
    }

    pub fn layer_count(&self) -> (r: usize)
        ensures
            r == self@.len(),
    {
        self.layers.len()
    }

    /// The length an input vector must have: the first layer's row count.
    pub fn input_dim(&self) -> (r: usize)
        requires
            self.well_formed(),
        ensures
            r == self@[0].rows,
    {
        self.layers[0].rows()
    }

    /// The number of class probabilities: the last layer's column count.
    pub fn output_dim(&self) -> (r: usize)
        requires
            self.well_formed(),
        ensures
            r == self@.last().cols,
            r > 0,
    {
        self.layers[self.layers.len() - 1].cols()
    }

    /// Whether the layer at `i` is followed by the rectified linear activation:
    /// every layer but the last is.
    pub fn is_hidden(&self, i: usize) -> (r: bool)
        ensures
            r == (i + 1 < self@.len()),
    {
        i < self.layers.len() && i + 1 < self.layers.len()
    }

    /// Accepts an input of `len` values only when it matches the first layer.
    pub fn check_input(&self, len: usize) -> (r: Result<(), MlpError>)
        requires
            self.well_formed(),
        ensures
            r is Ok <==> len == self@[0].rows,
            r is Err ==> r == Err::<(), MlpError>(MlpError::InputLengthMismatch),
    {
        if len == self.input_dim() {
            Ok(())
        } else {
            Err(MlpError::InputLengthMismatch)
        }
    }
}

} // verus!
