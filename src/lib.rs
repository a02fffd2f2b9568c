//! A minimal static-file HTTP server library: request parsing, path
//! resolution, content-type classification, response construction and
//! serialisation, each with a verified contract.

pub mod content_type;
pub mod http;
pub mod parse;
pub mod response;
pub mod server;
pub mod text;
