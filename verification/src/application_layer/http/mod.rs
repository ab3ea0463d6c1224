//! HTTP messages: the syntax of a request, the request parser and the
//! response.

pub mod parts;
pub mod request;
pub mod response;
pub mod scan;
pub mod syntax;
