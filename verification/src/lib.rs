//! A self-describing text codec for content scripts.
//!
//! A script is a flat string that packs a sequence of variable-length records.
//! Two mechanisms cooperate: [`script::ScriptWriter`] interns record kinds as
//! small numeric ids and flattens records into raw segments, and
//! [`lists::vec_to_string`] wraps each segment in a delimiter character that
//! the segment itself does not contain. [`wire`] states the grammar a reader
//! follows and proves that reading gives the written segments back.
//! [`sources`] and [`legacy`] hold the rules for the files that scripts are
//! built from.

pub mod decimal;
pub mod error;
pub mod legacy;
pub mod lists;
pub mod script;
pub mod search;
pub mod sources;
pub mod text;
pub mod wire;
