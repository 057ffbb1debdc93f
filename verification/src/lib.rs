//! Process introspection core: grouping a process's mapped memory regions by
//! backing file, and sequencing a stack inspection pass over an attached
//! process.
//!
//! Everything here works on plain values. Talking to the operating system is
//! left to the caller, who hands the observations in and takes the results
//! out.

pub mod aggregate;
pub mod aggregate_laws;
pub mod error;
pub mod frame;
pub mod pass;
pub mod pass_laws;
pub mod pass_outcome;
pub mod region;
pub mod selection;
pub mod thread;
