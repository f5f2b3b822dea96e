//! Status of recent GitHub Actions runs across a configured set of repositories.

pub mod cli;
pub mod clock;
pub mod collect;
pub mod config;
pub mod github;
pub mod json;
pub mod laws;
pub mod layout;
pub mod model;
pub mod order;
pub mod paint;
pub mod records;
pub mod render;
pub mod stub;
pub mod text;
