//! The evaluation core of a content-addressed computational model.
//!
//! Immutable blobs and trees are identified by names; names are viewed either
//! as inaccessible references or as accessible objects; deferred computations
//! are forced by encodes. Every executable function is verified against a
//! mathematical model of names and of the content store.

pub mod names;
pub mod equality;
pub mod store;
pub mod engine;
pub mod selection;
