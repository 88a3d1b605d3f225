//! Builds CycloneDX software bills of materials for Nix store paths.
pub mod text;
pub mod strmap;
pub mod derivation;
pub mod buildtime_input;
pub mod runtime_input;
pub mod cyclonedx;
pub mod dependencies;
pub mod hash;
pub mod component;
pub mod bom;
pub mod transform;
pub mod basic;
pub mod cli;
