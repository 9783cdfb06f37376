//! A verified front end for a JSON-shaped source language: a byte cursor,
//! a positioned value model, an insertion-order-preserving object map,
//! a recursive-descent parser, and an indenting serializer.
//!
//! The parser works over raw UTF-8 bytes: positions are byte offsets and
//! line numbers count line-feed bytes, exactly as diagnostics report them.
pub mod error;
pub mod laws;
pub mod object;
pub mod parser;
pub mod serialize;
pub mod spec_parse;
pub mod value;

pub use value::{JObject, JParser, JValue, Json, VKind};
