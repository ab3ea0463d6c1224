//! The application layer: what is said over a connection.

pub mod http;
