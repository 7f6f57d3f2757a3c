//! Single-pass static analyzer and rename-obfuscator for a scripting-language
//! source file.
//!
//! The analysis walks a parsed source tree once, flagging a small set of
//! suspicious patterns and names referenced without a declaration anywhere in
//! the tree, then a rename transform gives every declared name a fresh
//! generated name and reserializes the program.

pub mod ast;
pub mod bridge;
pub mod laws;
pub mod linter;
pub mod patterns;
pub mod rename;
pub mod report;
pub mod tracker;
pub mod walker;
