//! An event-stream-to-HTML rendering engine.
//!
//! The library consumes an ordered sequence of already-parsed structural
//! markdown events and emits a single sanitized HTML byte string following a
//! fixed set of site-specific formatting conventions: responsive tables,
//! labeled code blocks, numbered footnotes, and safe link/image attributes.
//! Syntax highlighting and free-text enrichment are delegated to two
//! collaborator functions supplied by the caller.

pub mod collab;
pub mod escape;
pub mod events;
pub mod notes;
pub mod render;
