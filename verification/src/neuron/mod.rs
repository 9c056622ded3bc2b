//! A layered feed-forward network that learns by backpropagation.

pub mod laws;
pub mod layer;
pub mod model;
pub mod network;
pub mod node;

pub use layer::Layer;
pub use model::{LayerView, NetworkView, NodeView};
pub use network::Network;
pub use node::Node;
