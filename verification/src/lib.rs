//! A small bounded cache from font references to lazily computed values.
//!
//! The cache recognises a font either by a stable identity that the caller
//! assigned to it, or by a content fingerprint, and evicts the slot that has
//! gone longest without being confirmed.

pub mod font;
pub mod slot;
pub mod model;
pub mod cache;
pub mod theorems;
