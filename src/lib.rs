//! A dense feed-forward network read from a compact little-endian binary
//! layout, with its decoder, shape validation and activation rule proved.
pub mod encoding;
pub mod error;
pub mod format;
pub mod activation;
pub mod model;
