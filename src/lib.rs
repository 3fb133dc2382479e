//! Distribution of platform-specific binaries with ed25519 signatures, and the
//! streaming verifier that checks a fetched binary before it is run.

pub mod catalog;
pub mod cache;
pub mod runner;
pub mod manifest;
pub mod signing;
pub mod service;
pub mod text;
