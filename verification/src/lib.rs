//! Terminal-rendering, logging, provisioning and prompt helpers of the Arbor
//! workspace manager, with their contracts proved by Verus.

pub mod display;
pub mod follow;
pub mod log_layer;
pub mod paint;
pub mod prompt_runner;
pub mod provisioner;
pub mod render;
pub mod signature;
pub mod styled;
pub mod terminal;
pub mod workloads;
pub mod text;
