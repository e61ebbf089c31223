//! Reading and writing the set of MCP server descriptors kept in a TOML
//! configuration document.
//!
//! Documents and loosely-typed descriptor values are held as [`node::Node`]
//! trees. [`reader::read_document`] reads the descriptor map out of a
//! document, [`writer::write_document`] writes one into it, and
//! [`normalize`] converts single entries in both directions.

pub mod descriptor;
pub mod laws;
pub mod node;
pub mod normalize;
pub mod reader;
pub mod writer;
