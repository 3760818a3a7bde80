//! Pins running processes to the cores of one or more core complexes.
//!
//! A core complex is a group of cores behind one shared last-level cache.
//! The crate turns a platform's description of its cores into a list of
//! complexes, resolves a configured selection of complexes into a set of
//! cores, and decides whether a process's scheduling affinity has to change.

pub mod affinity;
pub mod ccx;
pub mod config;
pub mod error;
pub mod mask;
pub mod sched;
pub mod text;
pub mod topology;
pub mod watch;
