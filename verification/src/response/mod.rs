//! Responses to requests.

pub mod tcp;
pub mod types;

use vstd::prelude::*;

verus! {

/// Answers what is read off a connection at once: the request is read by
/// [`types::http::Dispatcher`] and answered by the responders of
/// [`types::http`].
#[derive(Debug)]
pub struct Dispatcher {}

} // verus!
