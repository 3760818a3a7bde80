//! Processes from a directory with one entry per process, named by the
//! process's id, each with a small file that holds the name of its
//! executable.

use crate::error::Error;
use crate::text::{
    has_prefix, i32_of, parse_i32, starts_with, trim, trim_start_matches, trimmed, without_prefix,
};
use vstd::prelude::*;

verus! {

/// What the path of a process's directory begins with; the id of the process
/// follows.
pub const PROC_PREFIX: &'static str = "/proc/";

/// A process as it was seen at one moment. It may be gone at the next.
#[derive(Debug, Clone)]
pub struct Process {
    /// The id of the process.
    pub pid: i32,
    /// The name of the executable of the process.
    pub name: String,
}

/// The id of the process whose directory `path` names, none where `path`
/// names something else.
pub open spec fn entry_pid(path: Seq<char>) -> Option<i32> {
    if starts_with(path, PROC_PREFIX@) {
        i32_of(without_prefix(path, PROC_PREFIX@))
    } else {
        None
    }
}

/// Tells the directory of a process from the other entries beside it, and
/// reads the id of the process off its path.
pub fn process_id(path: &str) -> (r: Option<i32>)
    ensures
        r == entry_pid(path@),
{
    if !has_prefix(path, PROC_PREFIX) {
        return None;
    }
    parse_i32(trim_start_matches(path, PROC_PREFIX))
}

/// The process `pid` as its name file describes it: the name is the text of
/// the file without the white space around it.
pub fn observe(pid: i32, comm: &str) -> (process: Process)
    ensures
        process.pid == pid,
        process.name@ == trimmed(comm@),
{
    Process { pid, name: trim(comm).to_owned() }
}

/// What the scanning loop has just learnt.
#[derive(Debug, Clone)]
pub enum Event {
    /// The directory of processes could not be listed.
    ListFailed,
    /// The listing gave an entry with this path.
    Entry(String),
    /// The listing gave an entry that could not be read.
    EntryFailed,
    /// The name file of process `pid` was read, or could not be read.
    Name { pid: i32, comm: Option<String> },
    /// The listing has no more entries.
    ListEnd,
    /// Nobody takes the processes that are found any more.
    Unwatched,
}

/// What the scanning loop is to do next.
#[derive(Debug, Clone)]
pub enum Action {
    /// Go on with the next entry of the listing.
    Skip,
    /// Read the name file of this process.
    ReadName(i32),
    /// Hand this process to whoever takes them, then go on with the next
    /// entry.
    Deliver(Process),
    /// Wait for so many milliseconds, then list the directory again.
    Sleep(u64),
    /// Give up for this reason.
    Abort(Error),
    /// Stop without a failure.
    Stop,
}

/// Whether `action` is what follows `event` in a loop that waits `interval`
/// milliseconds between two scans.
///
/// Only a listing that cannot be had ends the loop with a failure. An entry
/// that cannot be read, that is no process, or whose name file is gone by the
/// time it is read, is passed over. Every process of one scan is delivered
/// before the loop sleeps.
pub open spec fn follows(interval: u64, event: Event, action: Action) -> bool {
    match event {
        Event::ListFailed => action == Action::Abort(Error::Io),
        Event::Entry(path) => match entry_pid(path@) {
            Some(pid) => action == Action::ReadName(pid),
            None => action == Action::Skip,
        },
        Event::EntryFailed => action == Action::Skip,
        Event::Name { pid, comm: Some(text) } => action matches Action::Deliver(process)
            && process.pid == pid && process.name@ == trimmed(text@),
        Event::Name { comm: None, .. } => action == Action::Skip,
        Event::ListEnd => action == Action::Sleep(interval),
        Event::Unwatched => action == Action::Stop,
    }
}

/// Decides what the scanning loop does next.
pub fn step(interval: u64, event: Event) -> (action: Action)
    ensures
        follows(interval, event, action),
{
    match event {
        Event::ListFailed => Action::Abort(Error::Io),
        Event::Entry(path) => match process_id(path.as_str()) {
            Some(pid) => Action::ReadName(pid),
            None => Action::Skip,
        },
        Event::EntryFailed => Action::Skip,
        Event::Name { pid, comm: Some(text) } => Action::Deliver(observe(pid, text.as_str())),
        Event::Name { comm: None, .. } => Action::Skip,
        Event::ListEnd => Action::Sleep(interval),
        Event::Unwatched => Action::Stop,
    }
}

} // verus!
