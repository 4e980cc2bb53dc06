//! Verified core of the Codex Enhanced runtime checks and output handling:
//! preparation of command output for the model, bounded capture of hook
//! output, retention of spilled output, the doctor preflight, runtime
//! provenance and source parity, and the decisions of running hooks.
pub mod text;
pub mod output;
pub mod doctor;
pub mod preflight;
pub mod runtime;
pub mod cleanup;
pub mod hook_stream;
pub mod hook_command;
pub mod spill;
