//! Finding the processes that run on the machine, scan after scan.

pub mod linux;
pub mod windows;
