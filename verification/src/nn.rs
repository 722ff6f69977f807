use vstd::prelude::*;

use crate::view::Index;

pub mod fully_connected_layer;
pub mod multi_layer_perceptron;
pub mod serialization;

pub use fully_connected_layer::FullyConnectedLayer;
pub use fully_connected_layer::batched_output_to_input;
pub use fully_connected_layer::input_layer_vec;
pub use multi_layer_perceptron::FullyConnectedLayerParams;
pub use multi_layer_perceptron::MultiLayerPerceptron;
pub use multi_layer_perceptron::MultiLayerPerceptronParams;

verus! {

/// A batch index: which example of a minibatch.
#[derive(Debug, Copy, Clone, Eq, PartialEq, Structural)]
pub struct B(pub usize);

/// An input index: which input of a layer.
#[derive(Debug, Copy, Clone, Eq, PartialEq, Structural)]
pub struct I(pub usize);

/// An output index: which output of a layer.
#[derive(Debug, Copy, Clone, Eq, PartialEq, Structural)]
pub struct O(pub usize);

impl Index for B {
    open spec fn as_int(self) -> int {
        self.0 as int
    }

    fn into_usize(self) -> (r: usize) {
        self.0
    }

    fn from_usize(value: usize) -> (r: Self) {
        B(value)
    }
}

impl Index for I {
    open spec fn as_int(self) -> int {
        self.0 as int
    }

    fn into_usize(self) -> (r: usize) {
        self.0
    }

    fn from_usize(value: usize) -> (r: Self) {
        I(value)
    }
}

impl Index for O {
    open spec fn as_int(self) -> int {
        self.0 as int
    }

    fn into_usize(self) -> (r: usize) {
        self.0
    }

    fn from_usize(value: usize) -> (r: Self) {
        O(value)
    }
}

} // verus!
