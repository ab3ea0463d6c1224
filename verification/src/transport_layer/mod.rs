//! The transport layer: where the server listens.

use vstd::prelude::*;
use crate::decimal::{decimal, decimal_of};
use crate::text::{append_chars, chars_of, string_of};
use crate::Config;

verus! {

/// HTTP over TCP.
#[derive(Debug)]
pub struct TCP {}

/// The address of a host and a port: the host, a colon, the port.
pub open spec fn address_of(host: Seq<char>, port: nat) -> Seq<char> {
    host + seq![':'] + decimal(port)
}

impl TCP {
    /// The address at which the server listens.
    pub fn address(config: &Config) -> (path: String)
        ensures
            path@ == address_of(config.server_host@, config.server_port as nat),
    {
        let mut path = chars_of(config.server_host.as_str());
        path.push(':');
        append_chars(&mut path, &chars_of(decimal_of(config.server_port as u64).as_str()));
        string_of(&path)
    }
}

} // verus!
