//! Core library for a tag-based virtual filesystem.
//!
//! Users attach `(tag, optional value)` pairs to absolute paths.  The pairs
//! live in a relational store behind [`db::Database`]; the synthetic
//! directory tree that a mount exposes is modelled by [`fs::TagFS`], which
//! materialises inodes on demand and answers the usual filesystem callbacks
//! (`getattr`, `lookup`, `readdir`, `readlink`, `open`, `read`) as plain
//! values.  A small query language (lexed by [`db::lex_query`] and translated
//! to a parameterised selection by [`db::Query`]) drives the `?/` hierarchy.

pub mod db;
pub mod error;
pub mod fs;
mod text;
