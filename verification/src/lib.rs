//! Potemkin: a language-server proxy with composable plugins.
//!
//! It sits between an editor and a real language server, and runs the server's responses
//! through plugins that rewrite deep generic types into a readable form. It can also fan one
//! editor session out to several servers, one per directory whose `potemkin.toml` overrides
//! the server's settings.
//!
//! Everything here is transport-agnostic: processes, pipes, files and the environment are
//! the program's business.
pub mod config_laws;
pub mod config_layer;
pub mod json;
pub mod lsp;
pub mod mock_lsp;
pub mod mux;
pub mod mux_laws;
pub mod mux_model;
pub mod mux_routes;
pub mod mux_runs;
pub mod mux_settings;
pub mod number;
pub mod order;
pub mod paths;
pub mod pipeline;
pub mod pipeline_laws;
pub mod plugin;
pub mod plugin_api;
pub mod plugin_laws;
pub mod protocol;
pub mod raw;
pub mod scope;
pub mod startup;
pub mod startup_laws;
pub mod subprocess;
pub mod text;
pub mod text_laws;
pub mod tracking;

pub use crate::pipeline::{Config, Pipeline, Rewriter, DEFAULT_PLUGIN_TIMEOUT_MS};
pub use crate::plugin_api::{
    plugin_is_interested, IntoText, Plugin, TextKind, TransformContext, TransformOutput,
};
pub use crate::raw::RawConfig;
