//! The basic transformer: a document of the runtime closure's derivations, with no graph.
pub mod buildtime_input;
pub mod cyclonedx;
pub mod input;
