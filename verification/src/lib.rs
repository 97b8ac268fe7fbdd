//! Canonical ordering of GitHub Actions workflow documents.
pub mod constants;
pub mod text;
pub mod node;
pub mod order;
pub mod sort;
pub mod edit;
pub mod structure_transformers;
pub mod presentation_transformers;
pub mod laws;
pub mod content;
pub mod paths;
pub mod placement;
