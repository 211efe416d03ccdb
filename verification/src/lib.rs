//! The acquisition pipeline of a Spotify track downloader: resolving a
//! source string into a typed resource identifier, expanding it into an
//! ordered batch of items, selecting the best available representation of
//! each item with fallback to its substitutes, the per-item retrieval
//! decisions — skip-if-exists, tolerated key absence, decryption, container
//! header stripping — and the batch bookkeeping of pacing, skips and
//! failures. Everything here is verified; the asynchronous transport, the
//! session handshake and the terminal live in the surrounding binary.

pub mod batch;
pub mod errors;
pub mod expander;
pub mod resolver;
pub mod retrieval;
pub mod selector;
