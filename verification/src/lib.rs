//! Attesta backend core: the commitment Merkle tree, event decoding, rate
//! limiting, request validation and the other decisions of the backend,
//! each stated and proved against a specification.

pub mod codec;
pub mod merkle;
pub mod text;
pub mod xdr;
pub mod events;
pub mod limits;
pub mod api_error;
pub mod tree_service;
pub mod config;
pub mod models;
pub mod notes;
pub mod credentials;
pub mod service;
pub mod ingest;
pub mod disclosure;
