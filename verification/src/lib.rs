//! Call graphs of Rust crates: the graph itself, the walk that builds it from
//! a semantic analysis of the code, and its rendering as a DOT document.

pub mod account;
pub mod args;
pub mod builder;
pub mod calls;
pub mod db;
pub mod graph;
pub mod graphviz;
pub mod order;
pub mod provider;
pub mod syntax;
pub mod utils;
