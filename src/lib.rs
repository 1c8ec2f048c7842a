//! An incremental computation engine: derived values are cached per version with the input
//! reads their evaluation made, reused while those reads still hold, shared between
//! concurrent requests, and evaluated again only when a read value changed.


pub mod ctx;
pub mod data;
pub mod find;
pub mod graph;
pub mod laws;

pub mod typing;
