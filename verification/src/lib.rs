//! Configuration resolution for a test-coverage tool: a configuration data
//! model with default/override precedence, a multi-profile configuration-file
//! format, a glob-style file-exclusion matcher with lazy pattern compilation,
//! and the relative-path computation used to normalize paths against a
//! project root before matching.

pub mod config;
pub mod glob;
pub mod path;
pub mod profiles;
