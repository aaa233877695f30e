//! Index and server core of a Lua language server for FiveM resources.
pub mod capabilities;
pub mod documents;
pub mod event_laws;
pub mod index;
pub mod laws;
pub mod lookup_laws;
pub mod messages;
pub mod model;
pub mod modules;
pub mod pass_laws;
pub mod paths;
pub mod queries;
pub mod server;
pub mod server_laws;
pub mod session;
pub mod settings;
pub mod slots;
pub mod store_laws;
pub mod symbols;
pub mod tables;
pub mod text;
pub mod text_laws;
