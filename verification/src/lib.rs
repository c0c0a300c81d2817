pub mod artifact;
pub mod convert;
pub mod error;
pub mod graph;
pub mod ir;
pub mod laws;
pub mod operation;
pub mod orchestrator;
