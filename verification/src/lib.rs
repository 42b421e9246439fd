//! Indexing, querying and deriving views of JSON documents.
//!
//! A document is flattened into a pre-order index of addressable nodes, which
//! can be expanded, collapsed and filtered; any node can be extracted or
//! replaced by its address; filtered selections are turned into numbered
//! listings and re-keyed projections; corrections to a listing are written
//! back into the document.
//!
//! Documents are values of `serde_json`, and addresses are resolved by
//! `jsonpath_rust`. What these crates do is stated, and taken on trust, in
//! [`json`] and [`jsonpath`], as is what `String::push` does, in [`text`];
//! everything else is proved from there.

pub mod classifier;
pub mod clipboard;
pub mod data_core;
pub mod display;
pub mod json;
pub mod jsonpath;
pub mod listing;
pub mod performance;
pub mod pipeline;
pub mod resolver;
pub mod search;
pub mod shadow_tree;
pub mod structure;
pub mod text;
pub mod text_map;
pub mod transform;
pub mod visibility;
pub mod writeback;
