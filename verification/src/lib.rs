//! Verified core of a stack-update workflow: fetch a deployed stack's
//! template and parameters, stage them for local editing, submit the edited
//! definition back, and poll the stack until it leaves the in-progress state.
//!
//! The library holds the logic with real state and sequencing: the parameter
//! file codec, the status classification, the artifact-location computation,
//! and the orchestrating state machine. Remote calls, the editor subprocess
//! and all file I/O are performed by an unverified shell around the library,
//! which feeds their outcomes back in as plain events.

pub mod codec;
pub mod errors;
pub mod locations;
pub mod orchestrator;
pub mod params;
pub mod status;
pub mod text;
