//! Verified core of the LarTycc digital audio workstation: the project model
//! and its undo/redo session, the project file format, the decisions of the
//! native-host command router, the webview seam's path and script checks,
//! waveform peaks, and the values exchanged with the native audio host.
use vstd::prelude::*;

pub mod ai_runtime;
pub mod audio;
pub mod host;
pub mod json;
pub mod project;
pub mod round_trip;
pub mod session;
pub mod text;
pub mod waveform;
pub mod webview;

verus! {
} // verus!
