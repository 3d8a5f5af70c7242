//! A streaming HTTP/1.1 request parser over a buffered byte source, with the
//! keep-alive policy that decides how many requests one connection carries.

pub mod buffer;
pub mod laws;
pub mod parser;
pub mod request;
pub mod server;
pub mod text;
