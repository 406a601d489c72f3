//! A small HTTP/1.1 server core: request parsing, endpoint routing, response
//! encoding, the per-connection state machine and admission control.
pub mod endpoint;
pub mod keyed;
pub mod parser;
pub mod path;
pub mod request_helper;
pub mod resource;
pub mod response;
pub mod template_engine;
pub mod text;
pub mod threads;
pub mod types;
pub mod web_server;
