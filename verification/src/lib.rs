//! An in-memory named-recipe collection: a store mapping caller-chosen
//! integer identifiers to recipe names, together with the response shaping
//! that a request-handling layer places on top of it.

pub mod api;
pub mod laws;
pub mod store;
