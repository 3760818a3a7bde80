//! The cores of the machine and where each of them is described.

use vstd::prelude::*;

pub mod linux;
pub mod windows;

verus! {

/// The last-level cache that a core shares with its neighbours.
#[derive(Clone, Copy, Debug, PartialEq, Eq, Structural)]
pub struct CacheGroup {
    /// The platform's identifier of the cache. Cores with the same identifier
    /// share the cache.
    pub id: usize,
    /// The size of the cache in bytes, zero where the platform does not say.
    pub size: usize,
}

/// One core as the platform describes it.
#[derive(Clone, Copy, Debug, PartialEq, Eq, Structural)]
pub struct Cpu {
    /// The physical core. Logical cores with the same physical core are
    /// siblings of one another.
    pub physical_core: usize,
    /// The index by which a scheduler that takes core indices knows the core.
    /// Of a core that the platform names by a mask, it is the lowest processor
    /// of the mask.
    pub logical_core: usize,
    /// The bits by which a scheduler that takes bit masks knows the core, none
    /// where the platform names its cores by index alone.
    pub affinity_mask: u64,
    /// The last-level cache of the core.
    pub l3_group: CacheGroup,
}

} // verus!
