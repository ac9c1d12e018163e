//! Streaming minification of SVG documents: a pipeline of transformation
//! units over markup events, and the path-data optimizer built on it.

pub mod cli;
pub mod error;
pub mod idempotence;
pub mod markup;
pub mod path_data;
pub mod path_laws;
pub mod plugins;
pub mod processor;
pub mod text;
