//! Short-code allocation and resolution.

pub mod codegen;
pub mod model;
pub mod policy;
pub mod registry;
