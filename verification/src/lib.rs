//! A library for AST-aware code editing: text anchors are located in a source
//! file whitespace-insensitively, resolved to syntax-node boundaries, and the
//! edit is placed, re-indented and reported.
#![allow(unused_imports)]
use vstd::prelude::*;

pub mod text;
pub mod searcher;
pub mod indentation;
pub mod education;
pub mod item;
pub mod selector;
pub mod languages;
pub mod editor;
pub mod state;
pub mod syntax;
pub mod operations;
pub mod staging;
pub mod ast_explorer;
pub mod parsers;
pub mod editors;
pub mod handlers;
