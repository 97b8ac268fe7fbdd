//! Transformers that adjust how an emitted document is written.
pub mod variable_spacer;
