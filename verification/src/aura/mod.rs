//! Help answered from the semantic memory.
pub mod help;
