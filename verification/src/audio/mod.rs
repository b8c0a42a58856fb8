//! The two directions of the audio: what the machine plays, and what the phone records.
use vstd::prelude::*;

pub mod capture;
pub mod render;

verus! {

} // verus!
