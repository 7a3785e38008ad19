//! A small HTTP/1.0 server for the files and directories below one root,
//! as a library: the request parser, the dispatcher, the response and its
//! bytes on the wire, with their contracts.
//!
//! The library never touches a socket or the disk. Whoever runs the server
//! reads the request, reads from disk what `http::process_http_request` asks
//! for, and sends the bytes that `response::HttpResponse::serialize` gives.

pub mod connection;
pub mod files;
pub mod html;
pub mod http;
pub mod http_status;
pub mod request;
pub mod response;
pub mod text;
pub mod wire;
