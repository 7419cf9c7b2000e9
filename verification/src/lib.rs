//! Shell completion for poe tasks.

pub mod text;
pub mod words;
pub mod parse;
pub mod resolve;
pub mod engine;
pub mod wire;
pub mod format;
pub mod scripts;
pub mod process;
pub mod json;
pub mod config;
pub mod paths;
pub mod resolver;
pub mod cache;
pub mod repair;
pub mod install;
pub mod cli;

pub use cli::{Args, Command, build_request, output};
