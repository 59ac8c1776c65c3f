//! A synthetic pixel-buffer generator driven by string key/value configuration.
//!
//! The library reads a list of key/value pairs, resolves image geometry and
//! pixel layout from them, and fills a buffer with a deterministic test
//! pattern. The foreign-function boundary around it lives in the application
//! crate.
pub mod pattern;
pub mod config;
pub mod geometry;
pub mod render;
