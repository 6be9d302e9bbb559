//! Build-tool logic for packaging Rust libraries as Android applications:
//! architecture tables, project configuration, text templating of the
//! Android shell project, linker configuration and path planning.

pub mod text;
pub mod ndk;
pub mod attrs;
pub mod paths;
pub mod config;
pub mod toml_doc;
pub mod cargo;
pub mod pattern;
pub mod scribe;
pub mod commands;
pub mod shell;
pub mod setup;
pub mod utils;
pub mod archive;
