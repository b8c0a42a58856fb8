//! A bridge between a phone and a Windows machine: audio both ways, keys and pointer, the
//! machine's files, and dictation. What it decides and computes stands here, with proofs.
use vstd::prelude::*;

pub mod answer;
pub mod audio;
pub mod bytes;
pub mod dictate;
pub mod fields;
pub mod files;
pub mod json;
pub mod keyboard;
pub mod logging;
pub mod net;
pub mod order;
pub mod state;
pub mod stored;
pub mod text;
pub mod tls;
pub mod trackpad;
pub mod tray;
pub mod utf16;
pub mod voice;

verus! {

} // verus!
