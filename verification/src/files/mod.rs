//! The files side: what may be browsed, what a name may be, and what the answers say.
use vstd::prelude::*;

pub mod api;
pub mod config;
pub mod delete;
pub mod features;
pub mod lnk;
pub mod pathsafe;
pub mod pshell;
pub mod sessions;
pub mod shortcuts;
pub mod trash;

verus! {

} // verus!
