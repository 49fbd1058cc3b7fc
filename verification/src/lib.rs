//! Local-first class transcription: the decisions behind capture, speech
//! detection, transcription bookkeeping and session files.
use vstd::prelude::*;

pub mod text;
pub mod util;
pub mod vad;
pub mod app;
pub mod platform;
pub mod session;
pub mod wav;
pub mod cli;
pub mod transcribe;

verus! {

} // verus!
