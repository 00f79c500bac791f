//! The command-line layer's own logic: tree and snapshot identity, and the
//! labeled approximate textual caller resolver.

pub mod args;
pub mod commands;
pub mod lexical;
pub mod state;
pub mod semantic;
