//! Visual novel engine: the script language and its interpreter, and the
//! plain state of rendering, textures, scenes and configuration.
pub mod command;
pub mod script;
pub mod config;
pub mod rendering;
pub mod texture;
pub mod scene;
