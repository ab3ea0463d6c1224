//! The kinds of response.

pub mod filesystem;
pub mod http;
