//! Filename normalization and episode inference for media collections: a
//! configurable text-cleaning pipeline, Roman-numeral and season extraction,
//! and frequency-based episode-number disambiguation across a batch of file
//! names. Every function's behaviour is stated in its contract and verified.

pub mod chars;
pub mod clean;
pub mod filter;
pub mod laws;
pub mod roman;
pub mod series;
