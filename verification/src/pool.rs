//! The worker pool's arithmetic: how many workers there are, and when the
//! server counts as overloaded.

use vstd::prelude::*;
use vstd::string::*;
use crate::config::{Directive, DirectivesView, ServerConfig};
use crate::error::Error;
use crate::fields::lookup;
use crate::numeric::{parse_decimal, parse_usize};

verus! {

/// The number of workers that a configuration asks for: the value of
/// `ThreadPoolSize`, one where the directive is absent. A value that is no
/// numeral of the machine word is an error.
pub open spec fn spec_pool_size(directives: DirectivesView) -> Option<usize> {
    match lookup(directives, Directive::ThreadPoolSize) {
        None => Some(1usize),
        Some(v) => match parse_decimal(v) {
            Some(n) => if n <= usize::MAX {
                Some(n as usize)
            } else {
                None
            },
            None => None,
        },
    }
}

/// The number of workers to start for `server_config`.
pub fn pool_size(server_config: &ServerConfig) -> (r: Result<usize, Error>)
    ensures
        match spec_pool_size(server_config@.directives) {
            Some(n) => r == Ok::<usize, Error>(n),
            None => r matches Err(e) && e@ == "Could not parse ThreadPoolSize"@,
        },
{
    match server_config.directives.get(Directive::ThreadPoolSize) {
        None => Ok(1),
        Some(v) => match parse_usize(v.as_slice()) {
            Some(n) => Ok(n),
            None => Err(Error::of("Could not parse ThreadPoolSize")),
        },
    }
}

/// Whether the server is overloaded when a connection is handed to a
/// worker: no other worker is ready.
pub fn is_overloaded(others_ready: usize) -> (r: bool)
    ensures
        r == (others_ready == 0),
{
    others_ready == 0
}

} // verus!
