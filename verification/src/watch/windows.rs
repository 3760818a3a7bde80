//! Processes from a snapshot of the process list, each entry with the id of
//! a process and the file name of its executable in sixteen-bit units.

use crate::error::Error;
use crate::text::{trim_end_matches, without_suffix};
use vstd::prelude::*;

verus! {

/// What fills the end of a file name that is shorter than its field.
pub const PADDING: &'static str = "\0";

/// The extension of an executable's file name.
pub const EXTENSION: &'static str = ".exe";

/// A process as it was seen at one moment. It may be gone at the next.
#[derive(Debug, Clone)]
pub struct Process {
    /// The id of the process.
    pub pid: u32,
    /// The name of the executable of the process.
    pub name: String,
}

/// The text that `units` encode as UTF-16, none where they are no
/// well-formed UTF-16.
pub uninterp spec fn utf16_text(units: Seq<u16>) -> Option<Seq<char>>;

/// `String::from_utf16`: decodes `units`, and fails where a surrogate stands
/// without its partner.
#[verifier::external_body]
fn text_of(units: &[u16]) -> (r: Option<String>)
    ensures
        match r {
            Some(text) => utf16_text(units@) == Some(text@),
            None => utf16_text(units@) is None,
        },
{
    String::from_utf16(units).ok()
}

/// The name of the program with the file name `file`: the file name without
/// the padding at its end and, after that, without its extension.
pub open spec fn program_name(file: Seq<char>) -> Seq<char> {
    without_suffix(without_suffix(file, PADDING@), EXTENSION@)
}

/// Reduces the file name of an executable to the name of the program.
pub fn clean_name(file: &str) -> (name: String)
    ensures
        name@ == program_name(file@),
{
    trim_end_matches(trim_end_matches(file, PADDING), EXTENSION).to_owned()
}

/// The process of one entry of the snapshot, none where the file name of the
/// entry is no text.
pub fn observe(pid: u32, exe_file: &[u16]) -> (r: Option<Process>)
    ensures
        match r {
            Some(process) => utf16_text(exe_file@) matches Some(file) && process.pid == pid
                && process.name@ == program_name(file),
            None => utf16_text(exe_file@) is None,
        },
{
    match text_of(exe_file) {
        Some(file) => Some(Process { pid, name: clean_name(file.as_str()) }),
        None => None,
    }
}

/// What the scanning loop has just learnt.
#[derive(Debug, Clone)]
pub enum Event {
    /// The snapshot could not be taken, or its first entry could not be had.
    SnapshotFailed,
    /// The snapshot gave an entry with this id and this file name.
    Entry { pid: u32, exe_file: Vec<u16> },
    /// The snapshot has no more entries.
    SnapshotEnd,
    /// Nobody takes the processes that are found any more.
    Unwatched,
}

/// What the scanning loop is to do next.
#[derive(Debug, Clone)]
pub enum Action {
    /// Go on with the next entry of the snapshot.
    Skip,
    /// Hand this process to whoever takes them, then go on with the next
    /// entry.
    Deliver(Process),
    /// Wait for so many milliseconds, then take another snapshot.
    Sleep(u64),
    /// Give up for this reason.
    Abort(Error),
    /// Stop without a failure.
    Stop,
}

/// Whether `action` is what follows `event` in a loop that waits `interval`
/// milliseconds between two scans.
///
/// Only a snapshot that cannot be had ends the loop with a failure. An entry
/// whose file name is no text is passed over. Every process of one scan is
/// delivered before the loop sleeps.
pub open spec fn follows(interval: u64, event: Event, action: Action) -> bool {
    match event {
        Event::SnapshotFailed => action == Action::Abort(Error::Io),
        Event::Entry { pid, exe_file } => match utf16_text(exe_file@) {
            Some(file) => action matches Action::Deliver(process) && process.pid == pid
                && process.name@ == program_name(file),
            None => action == Action::Skip,
        },
        Event::SnapshotEnd => action == Action::Sleep(interval),
        Event::Unwatched => action == Action::Stop,
    }
}

/// Decides what the scanning loop does next.
pub fn step(interval: u64, event: Event) -> (action: Action)
    ensures
        follows(interval, event, action),
{
    match event {
        Event::SnapshotFailed => Action::Abort(Error::Io),
        Event::Entry { pid, exe_file } => match observe(pid, exe_file.as_slice()) {
            Some(process) => Action::Deliver(process),
            None => Action::Skip,
        },
        Event::SnapshotEnd => Action::Sleep(interval),
        Event::Unwatched => Action::Stop,
    }
}

} // verus!
