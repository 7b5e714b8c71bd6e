//! Remote runner agents: the registry that routes jobs to them.
pub mod registry;
