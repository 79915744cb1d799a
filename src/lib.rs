//! A command runner: runfiles declare a tree of named commands written in
//! several languages; this library parses them, resolves an invocation
//! against the tree and decides each step of running the chosen command.

pub mod exec;
pub mod lang;
pub mod parser;
pub mod tree;
