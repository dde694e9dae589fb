//! An HTTP/1.1 server library: request parsing, response templates, and
//! the routing decisions of the server loop.
pub mod text;
pub mod decimal;
pub mod headers;
pub mod body;
pub mod response;
pub mod segmented;
pub mod raw_path;
pub mod args;
