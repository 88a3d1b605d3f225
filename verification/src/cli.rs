//! The command line of the transformer.
use vstd::prelude::*;

verus! {

/// What the command line asks for.
pub struct Cli {
    /// Include buildtime dependencies in output
    pub include_buildtime_dependencies: bool,
    /// Regex patterns of store paths to exclude from the final SBOM.
    pub exclude: Vec<String>,
    /// Path to target derivation
    pub target: String,
    /// Path to JSON containing the buildtime input
    pub buildtime_input: String,
    /// Path to JSON containing the runtime input
    pub runtime_input: String,
    /// Path to write the SBOM to
    pub output: String,
}

} // verus!
