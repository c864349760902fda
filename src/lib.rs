//! Turns a parsed YAML value tree into a labeled directed graph and renders
//! that graph as DOT text.

pub mod graph;
pub mod text;
pub mod value;
pub mod convert;
pub mod laws;
