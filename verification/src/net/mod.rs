//! What comes over the network and what goes back.
use vstd::prelude::*;

pub mod routes;
pub mod server;
pub mod ws;

verus! {

} // verus!
