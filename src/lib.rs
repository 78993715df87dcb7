//! Trainable neural-network models built over a graph of scalar expressions:
//! a dense matrix type, a stack of tanh layers, an Elman recurrent network and
//! a liquid time-constant network integrated by explicit Euler steps.
pub mod layer;
pub mod liquid_neural_network;
pub mod matrix;
pub mod rnn;
pub mod value;

pub use layer::{LayeredNetwork, TanhLayer};
pub use liquid_neural_network::{Neuron, Synapse, LTC};
pub use matrix::Matrix;
pub use rnn::RNN;
pub use value::{Node, Value};
