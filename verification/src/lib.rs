//! Generation and MIME serialization of synthetic email messages.
//!
//! A message is a tree of [`parts::Part`] values: each part carries a header
//! map and either a raw data body or a list of child parts. The renderer
//! turns a part tree into its exact on-wire MIME text.

pub mod codec;
pub mod content_type;
pub mod header_map;
pub mod laws;
pub mod mbox;
pub mod message;
pub mod occurrences;
pub mod parts;
pub mod render;
pub mod strutil;
