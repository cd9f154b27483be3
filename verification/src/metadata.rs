//! The orchestrator's side of the metadata abstraction: image addresses,
//! search axes, which providers are configured and who owns a title's shape.

pub mod art;
pub mod axis;
pub mod owned;
pub mod registry;
