//! Verified core of a PowerShell command-line completion engine.
pub mod text;
pub mod protocol;
pub mod lexer;
pub mod model;
pub mod commands;
pub mod paths;
pub mod forms;
pub mod form;
pub mod config;
pub mod knowledge;
pub mod help;
pub mod completion;
pub mod session;
pub mod history;
pub mod path_cache;
pub mod hub;
pub mod packs;
pub mod learning;
pub mod discovery;
pub mod order;
pub mod engine;
pub mod workbench;
pub mod input;
pub mod snapshot;
pub mod layout;
pub mod hub_mode;
pub mod host;
