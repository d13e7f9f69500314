//! Remote build orchestration: the decisions behind pushing a project tree to a
//! remote host, running its build commands there and pulling the artifacts back.
//!
//! The transport itself is driven by the caller; this library states and proves
//! what is transferred, created and executed, and in which order.
pub mod settings;
pub mod script;
pub mod paths;
pub mod materialize;
pub mod walk;
