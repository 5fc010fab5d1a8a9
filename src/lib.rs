//! Inference of Boolean networks from network sketches: formula templates for dynamic
//! properties, observation data handling, and symbolic fixpoint algorithms over colored
//! state-transition graphs.

pub mod text;
pub mod inference_formulae;
pub mod create_inference_formulae;
pub mod observations;
pub mod data_loading;
pub mod data_encoding;
pub mod hctl_with_holes;
pub mod bool_vectors;
pub mod symbolic;
pub mod reachability;
pub mod attractors;
pub mod utils;
pub mod inference_attractor_data;
pub mod gradual_inference;
pub mod candidates;
