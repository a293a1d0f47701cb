//! Orchestration: the fault taxonomy, the output format, the exit-code policy, what reading a file
//! and walking a directory decide, and the run of one invocation over its inputs.
pub mod fault;
pub mod format;
pub mod ports;
pub mod run;
pub mod source;
pub mod walk;
