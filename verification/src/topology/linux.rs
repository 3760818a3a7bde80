//! Topology from a directory with one entry per core and two small text
//! files for each: the physical core of the core and the identifier of its
//! last-level cache.

use crate::error::Error;
use crate::text::{
    has_prefix, parse_usize, starts_with, trim, trim_start_matches, trimmed, usize_of,
    without_prefix,
};
use crate::topology::{CacheGroup, Cpu};
use vstd::prelude::*;

verus! {

/// What the path of a core's directory begins with; the index of the core
/// follows.
pub const CPU_PREFIX: &'static str = "/sys/devices/system/cpu/cpu";

/// The index of the core whose directory `path` names, none where `path`
/// names something else.
pub open spec fn entry_index(path: Seq<char>) -> Option<usize> {
    if starts_with(path, CPU_PREFIX@) {
        usize_of(without_prefix(path, CPU_PREFIX@))
    } else {
        None
    }
}

/// Tells the directory of a core from the other entries beside it, and reads
/// the core's index off its path.
pub fn core_index(path: &str) -> (r: Option<usize>)
    ensures
        r == entry_index(path@),
{
    if !has_prefix(path, CPU_PREFIX) {
        return None;
    }
    parse_usize(trim_start_matches(path, CPU_PREFIX))
}

/// The indices of the cores among the entries of the directory, in the order
/// of the entries.
pub open spec fn entry_indices(paths: Seq<String>) -> Seq<usize> {
    paths.filter_map(|path: String| entry_index(path@))
}

/// Picks the cores out of the entries of the directory.
pub fn core_indices(paths: &Vec<String>) -> (r: Vec<usize>)
    ensures
        r@ == entry_indices(paths@),
{
    let mut found: Vec<usize> = Vec::new();
    let mut i: usize = 0;
    assert(paths@.take(0) == Seq::<String>::empty());
    while i < paths.len()
        invariant
            i <= paths.len(),
            found@ == entry_indices(paths@.take(i as int)),
        decreases paths.len() - i,
    {
        assert(paths@.take(i + 1).drop_last() == paths@.take(i as int));
        if let Some(index) = core_index(paths[i].as_str()) {
            found.push(index);
        }
        i += 1;
    }
    assert(paths@.take(i as int) == paths@);
    found
}

/// The number that a topology file holds: its text without the white space
/// around it, read as a decimal number.
pub open spec fn number_in(text: Seq<char>) -> Option<usize> {
    usize_of(trimmed(text))
}

fn read_number(text: &str) -> (r: Option<usize>)
    ensures
        r == number_in(text@),
{
    parse_usize(trim(text))
}

/// The core that the two files of core `logical_core` describe.
pub open spec fn described(logical_core: usize, core_id: Seq<char>, cache_id: Seq<char>) -> Result<
    Cpu,
    Error,
> {
    match (number_in(core_id), number_in(cache_id)) {
        (Some(physical_core), Some(id)) => Ok(
            Cpu {
                physical_core,
                logical_core,
                affinity_mask: 0,
                l3_group: CacheGroup { id, size: 0 },
            },
        ),
        _ => Err(Error::Parse),
    }
}

/// Describes core `logical_core` from the text of its two files: `core_id`
/// holds its physical core, `cache_id` the identifier of its last-level cache.
/// The size of the cache is left at zero.
pub fn read_cpu(logical_core: usize, core_id: &str, cache_id: &str) -> (r: Result<Cpu, Error>)
    ensures
        r == described(logical_core, core_id@, cache_id@),
{
    let physical_core = match read_number(core_id) {
        Some(n) => n,
        None => {
            return Err(Error::Parse);
        },
    };
    let id = match read_number(cache_id) {
        Some(n) => n,
        None => {
            return Err(Error::Parse);
        },
    };
    Ok(Cpu { physical_core, logical_core, affinity_mask: 0, l3_group: CacheGroup { id, size: 0 } })
}

/// The text of the two files of one core.
pub struct CoreFiles {
    /// The index of the core.
    pub logical_core: usize,
    /// What the file with the physical core holds.
    pub core_id: String,
    /// What the file with the identifier of the last-level cache holds.
    pub cache_id: String,
}

impl CoreFiles {
    /// The core that the files describe.
    pub open spec fn cpu(self) -> Result<Cpu, Error> {
        described(self.logical_core, self.core_id@, self.cache_id@)
    }
}

/// Describes every core from the text of its files. One core whose files do
/// not hold numbers makes the whole topology malformed, and no core at all is
/// no topology.
pub fn cpus(files: &Vec<CoreFiles>) -> (r: Result<Vec<Cpu>, Error>)
    ensures
        match r {
            Ok(cpus) => cpus.len() == files.len() > 0 && forall|i: int|
                0 <= i < files.len() ==> (#[trigger] files[i]).cpu() == Ok::<Cpu, Error>(cpus[i]),
            Err(Error::Io) => files.len() == 0,
            Err(e) => e == Error::Parse && exists|i: int|
                0 <= i < files.len() && (#[trigger] files[i]).cpu() is Err,
        },
{
    if files.len() == 0 {
        return Err(Error::Io);
    }
    let mut cpus: Vec<Cpu> = Vec::new();
    let mut i: usize = 0;
    while i < files.len()
        invariant
            i <= files.len(),
            cpus.len() == i,
            forall|k: int| 0 <= k < i ==> (#[trigger] files[k]).cpu() == Ok::<Cpu, Error>(cpus[k]),
        decreases files.len() - i,
    {
        let entry = &files[i];
        match read_cpu(entry.logical_core, entry.core_id.as_str(), entry.cache_id.as_str()) {
            Ok(cpu) => {
                cpus.push(cpu);
            },
            Err(e) => {
                return Err(e);
            },
        }
        i += 1;
    }
    Ok(cpus)
}

} // verus!
