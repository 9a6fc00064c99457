//! A codec that stores a game-editor project as a directory tree of small,
//! diff-friendly files, and reads such a tree back into an equivalent
//! in-memory project graph.
//!
//! The tree format lays the project out one directory per asset kind and
//! one record file per asset, named after its validated name; binary
//! payloads are sidecar files, embedded action lists are a marker-delimited
//! text, and references between assets travel by name, resolved back to
//! numeric ids on load. A manifest at the root carries the format version
//! and each kind's name order.

pub mod bytes;
pub mod kv;
pub mod asset;
pub mod error;
pub mod message;
pub mod name;
pub mod fields;
pub mod tree;
pub mod codec_misc;
pub mod records;
pub mod records_obj;
pub mod records_room;
pub mod actions;
pub mod overlay;
pub mod list;
pub mod xref;
pub mod freshen;
pub mod outside;
pub mod misc;
pub mod project;
