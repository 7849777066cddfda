//! Core of a terminal diff viewer: diff parsing, file-tree construction,
//! navigation state and external-tool invocation planning.

pub mod cli;
pub mod config;
pub mod diff;
pub mod display;
pub mod git;
pub mod grouping;
pub mod icons;
pub mod invoker;
pub mod keys;
pub mod navigation;
pub mod parser;
pub mod paths;
pub mod pathset;
pub mod persistence;
pub mod record_laws;
pub mod render;
pub mod text;
pub mod theme;
pub mod tree;
pub mod tree_laws;
