pub mod text;
pub mod json;
pub mod msgpack;
pub mod sync;
pub mod hooks;
pub mod config;
pub mod persistence;
pub mod plugin_api;
