//! HTTP messages as text.

pub mod response;
