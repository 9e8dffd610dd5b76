//! Verified core of a source-tree printing pipeline.
//!
//! The library discovers buildable modules in a repository through their
//! manifests, classifies source files by the shape of their relative paths,
//! renders styled HTML listings, and assembles per-file artifacts into one
//! combined document whose page order follows the classification order no
//! matter in which order the render workers finished.

pub mod assembly;
pub mod classifier;
pub mod config;
pub mod discovery;
pub mod gitrefs;
pub mod manifest;
pub mod pipeline;
pub mod render;
pub mod sorting;
pub mod strutil;
pub mod style;
pub mod templates;
