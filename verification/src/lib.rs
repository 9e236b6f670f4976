//! A local development process supervisor: the manifest parser, the
//! dependency graph, the debouncer, the output formatter and the decisions of
//! the supervision loop.

pub mod text;
pub mod deps;
pub mod orchestrator;
pub mod output;
pub mod parser;
pub mod readiness;
