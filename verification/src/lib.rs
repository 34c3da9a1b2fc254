//! Routes each source file to one of several named formatter configurations
//! and multiplexes one editor connection over one formatter process per
//! configuration.

pub mod cli;
pub mod config;
pub mod json;
pub mod jsonc;
pub mod lsp;
pub mod matcher;
pub mod order;
pub mod paths;
pub mod proxy;
pub mod runner;
pub mod text;
