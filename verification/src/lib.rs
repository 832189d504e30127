//! Core logic of a menu-bar voice transcription tool: splitting recorded
//! audio into upload-sized chunks, merging the transcripts of overlapping
//! chunks, configuration defaults and session bookkeeping.
use vstd::prelude::*;

pub mod audio;
pub mod chunking;
pub mod config;
pub mod extract;
pub mod keychain;
pub mod sessions;
pub mod text;
pub mod transcription;
pub mod tray;

verus! {

} // verus!
