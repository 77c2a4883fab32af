//! Dependency-ordered start-up of the services of a development project:
//! the configuration model, the resolver that orders services by their
//! dependencies, the registry of running processes, the readiness prober and
//! the start sequence that ties them together.
//!
//! The library decides; it performs no input or output of its own. A caller
//! spawns processes, sleeps and probes ports, and reports what happened.

pub mod text;
pub mod error;
pub mod config;
pub mod start;
pub mod resolver;
pub mod resolver_proofs;
pub mod cycles;
pub mod registry;
pub mod health;
pub mod http;
pub mod orchestrator;
pub mod plan;
pub mod init;

pub use error::ToolError;
pub use registry::{ProcessInfo, ProcessState, ProcessStatus};
