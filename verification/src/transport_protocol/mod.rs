//! Messages as text.

pub mod http;
