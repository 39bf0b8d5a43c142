//! A minimal HTTP/1.1 request-line parser and response serializer, with the
//! pure decisions of a sequential connection loop.

pub mod http;
pub mod server;
