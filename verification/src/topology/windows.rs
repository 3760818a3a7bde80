//! Topology from a buffer of variable-length tagged records.
//!
//! Each record starts with a four-byte relationship tag and a four-byte
//! length, both little-endian; the length counts the whole record and leads to
//! the next one. A processor-core record holds the mask of its logical
//! processors, a cache record the level, the kind and the size of a cache and
//! the mask of the processors that share it.

use crate::error::Error;
use crate::topology::{CacheGroup, Cpu};
use vstd::prelude::*;
use vstd::std_specs::bits::u64_trailing_zeros;

verus! {

/// The tag of a record that describes one physical core.
pub const RELATION_PROCESSOR_CORE: u32 = 0;

/// The tag of a record that describes one cache.
pub const RELATION_CACHE: u32 = 2;

/// The kind of a cache that holds both instructions and data.
pub const CACHE_UNIFIED: u32 = 0;

/// The kind of a cache that holds data only.
pub const CACHE_DATA: u32 = 2;

/// The cache level by which cores are grouped.
pub const LAST_LEVEL: u8 = 3;

/// The number of logical processors taken to share one physical core. This is
/// a property of the processors the crate was written for, not of the record
/// format: a machine with another width gets physical core ids that are off.
pub const SMT_WIDTH: u32 = 2;

/// Where the four bytes of the relationship tag stand in a record.
pub const TAG_AT: usize = 0;

/// Where the four bytes of the length stand in a record.
pub const LENGTH_AT: usize = 4;

/// The bytes of the tag and the length that begin every record.
pub const HEADER_LEN: usize = 8;

/// Where the eight bytes of the first mask stand in a processor-core record.
pub const CORE_MASK_AT: usize = 32;

/// The bytes of a processor-core record up to the end of its first mask.
pub const PROCESSOR_LEN: usize = 40;

/// Where the byte of the level stands in a cache record.
pub const CACHE_LEVEL_AT: usize = 8;

/// Where the four bytes of the size stand in a cache record.
pub const CACHE_SIZE_AT: usize = 12;

/// Where the four bytes of the kind stand in a cache record.
pub const CACHE_KIND_AT: usize = 16;

/// Where the eight bytes of the mask stand in a cache record.
pub const CACHE_MASK_AT: usize = 40;

/// The bytes of a cache record up to the end of its mask.
pub const CACHE_LEN: usize = 48;

/// The two bytes at `at`, read as a little-endian number.
pub open spec fn le16(bytes: Seq<u8>, at: int) -> int {
    bytes[at] + 256 * bytes[at + 1]
}

/// The four bytes at `at`, read as a little-endian number.
pub open spec fn le32(bytes: Seq<u8>, at: int) -> int {
    le16(bytes, at) + 65536 * le16(bytes, at + 2)
}

/// The eight bytes at `at`, read as a little-endian number.
pub open spec fn le64(bytes: Seq<u8>, at: int) -> int {
    le32(bytes, at) + 4294967296 * le32(bytes, at + 4)
}

fn read_u32(bytes: &[u8], at: usize) -> (r: u32)
    requires
        at + 4 <= bytes.len(),
    ensures
        r == le32(bytes@, at as int),
{
    let b0: u32 = bytes[at] as u32;
    let b1: u32 = bytes[at + 1] as u32;
    let b2: u32 = bytes[at + 2] as u32;
    let b3: u32 = bytes[at + 3] as u32;
    b0 + 256 * b1 + 65536 * b2 + 16777216 * b3
}

fn read_u64(bytes: &[u8], at: usize) -> (r: u64)
    requires
        at + 8 <= bytes.len(),
    ensures
        r == le64(bytes@, at as int),
{
    let low: u64 = read_u32(bytes, at) as u64;
    let high: u64 = read_u32(bytes, at + 4) as u64;
    low + 4294967296 * high
}

/// One record of the buffer, reduced to what the grouping of cores reads.
#[derive(Clone, Copy, Debug, PartialEq, Eq, Structural)]
pub enum ProcInfo {
    /// A physical core and the mask of its logical processors.
    ProcessorCore { mask: u64 },
    /// A cache: its level, its kind, its size in bytes and the mask of the
    /// logical processors that share it.
    Cache { level: u8, kind: u32, size: u32, mask: u64 },
    /// A record of another relationship.
    Other { relationship: u32 },
}

/// The fewest bytes a record with this tag can have.
pub open spec fn least_len(relationship: int) -> int {
    if relationship == RELATION_PROCESSOR_CORE {
        PROCESSOR_LEN as int
    } else if relationship == RELATION_CACHE {
        CACHE_LEN as int
    } else {
        HEADER_LEN as int
    }
}

/// The length of the record at the head of `bytes`: the length it declares,
/// where that covers what its tag needs and does not run past the end.
pub open spec fn record_len(bytes: Seq<u8>) -> Option<int> {
    if bytes.len() < HEADER_LEN {
        None
    } else if le32(bytes, LENGTH_AT as int) < least_len(le32(bytes, TAG_AT as int)) || le32(
        bytes,
        LENGTH_AT as int,
    ) > bytes.len() {
        None
    } else {
        Some(le32(bytes, LENGTH_AT as int))
    }
}

/// What the record at the head of `bytes` says, given that [`record_len`]
/// accepts it.
pub open spec fn record_info(bytes: Seq<u8>) -> ProcInfo {
    let relationship = le32(bytes, TAG_AT as int);
    if relationship == RELATION_PROCESSOR_CORE {
        ProcInfo::ProcessorCore { mask: le64(bytes, CORE_MASK_AT as int) as u64 }
    } else if relationship == RELATION_CACHE {
        ProcInfo::Cache {
            level: bytes[CACHE_LEVEL_AT as int],
            kind: le32(bytes, CACHE_KIND_AT as int) as u32,
            size: le32(bytes, CACHE_SIZE_AT as int) as u32,
            mask: le64(bytes, CACHE_MASK_AT as int) as u64,
        }
    } else {
        ProcInfo::Other { relationship: relationship as u32 }
    }
}

/// The records that `bytes` consists of, in order, or `None` where some
/// record is cut short or declares a length it cannot have.
pub open spec fn records(bytes: Seq<u8>) -> Option<Seq<ProcInfo>>
    decreases bytes.len(),
{
    if bytes.len() == 0 {
        Some(Seq::empty())
    } else {
        match record_len(bytes) {
            None => None,
            Some(len) => match records(bytes.skip(len)) {
                None => None,
                Some(rest) => Some(seq![record_info(bytes)] + rest),
            },
        }
    }
}

/// Walks a buffer of records from the first to the last.
pub struct ProcInfoIterator {
    /// The records, one after the other.
    buffer: Vec<u8>,
    /// Where the next record begins, or the end of the buffer.
    i: usize,
}

impl ProcInfoIterator {
    #[verifier::type_invariant]
    spec fn in_bounds(self) -> bool {
        self.i <= self.buffer.len()
    }

    /// The bytes that have not been walked yet.
    pub closed spec fn remaining(self) -> Seq<u8> {
        self.buffer@.skip(self.i as int)
    }

    /// Starts at the head of `buffer`.
    pub fn new(buffer: Vec<u8>) -> (r: Self)
        ensures
            r.remaining() == buffer@,
    {
        ProcInfoIterator { buffer, i: 0 }
    }

    /// Hands out the record at the head of what remains and steps past it.
    ///
    /// At the end of the buffer there is nothing to hand out. A record that is
    /// cut short or declares a length it cannot have is a parse error, and
    /// nothing remains after it.
    pub fn next(&mut self) -> (r: Option<Result<ProcInfo, Error>>)
        ensures
            old(self).remaining().len() == 0 ==> r is None && final(self).remaining().len() == 0,
            old(self).remaining().len() > 0 ==> match record_len(old(self).remaining()) {
                Some(len) => r == Some(Ok::<ProcInfo, Error>(record_info(old(self).remaining())))
                    && final(self).remaining() == old(self).remaining().skip(len),
                None => r == Some(Err::<ProcInfo, Error>(Error::Parse))
                    && final(self).remaining().len() == 0,
            },
    {
        proof {
            use_type_invariant(&*self);
        }
        let total = self.buffer.len();
        let at = self.i;
        if at >= total {
            return None;
        }
        let ghost rest = self.buffer@.skip(at as int);
        if total - at < HEADER_LEN {
            self.i = total;
            return Some(Err(Error::Parse));
        }
        let relationship = read_u32(self.buffer.as_slice(), at + TAG_AT);
        let size = read_u32(self.buffer.as_slice(), at + LENGTH_AT);
        assert(relationship == le32(rest, TAG_AT as int) && size == le32(rest, LENGTH_AT as int));
        let least: usize = if relationship == RELATION_PROCESSOR_CORE {
            PROCESSOR_LEN
        } else if relationship == RELATION_CACHE {
            CACHE_LEN
        } else {
            HEADER_LEN
        };
        if (size as usize) < least || size as usize > total - at {
            self.i = total;
            return Some(Err(Error::Parse));
        }
        let info = if relationship == RELATION_PROCESSOR_CORE {
            let mask = read_u64(self.buffer.as_slice(), at + CORE_MASK_AT);
            assert(mask == le64(rest, CORE_MASK_AT as int));
            ProcInfo::ProcessorCore { mask }
        } else if relationship == RELATION_CACHE {
            let level = self.buffer[at + CACHE_LEVEL_AT];
            let size = read_u32(self.buffer.as_slice(), at + CACHE_SIZE_AT);
            let kind = read_u32(self.buffer.as_slice(), at + CACHE_KIND_AT);
            let mask = read_u64(self.buffer.as_slice(), at + CACHE_MASK_AT);
            assert(level == rest[CACHE_LEVEL_AT as int] && size == le32(rest, CACHE_SIZE_AT as int)
                && kind == le32(rest, CACHE_KIND_AT as int) && mask == le64(
                rest,
                CACHE_MASK_AT as int,
            ));
            ProcInfo::Cache { level, kind, size, mask }
        } else {
            ProcInfo::Other { relationship }
        };
        self.i = at + size as usize;
        assert(self.buffer@.skip(self.i as int) == rest.skip(size as int));
        Some(Ok(info))
    }
}

/// The processors that share one last-level cache, and the size of that cache.
#[derive(Clone, Copy, Debug, PartialEq, Eq, Structural)]
pub struct WindowsCacheGroup {
    /// The logical processors that share the cache.
    pub mask: u64,
    /// The size of the cache in bytes.
    pub l3_size: usize,
}

impl WindowsCacheGroup {
    /// The cache group that a record describes: one for each data or unified
    /// cache of the last level, none for any other record.
    pub open spec fn of(info: ProcInfo) -> Option<WindowsCacheGroup> {
        match info {
            ProcInfo::Cache { level, kind, size, mask } => if (kind == CACHE_DATA || kind
                == CACHE_UNIFIED) && level == LAST_LEVEL {
                Some(WindowsCacheGroup { mask, l3_size: size as usize })
            } else {
                None
            },
            _ => None,
        }
    }

    /// Reads a cache group off a record, where the record describes one.
    pub fn from_l3(info: &ProcInfo) -> (r: Option<Self>)
        ensures
            r == Self::of(*info),
    {
        match info {
            ProcInfo::Cache { level, kind, size, mask } => {
                if (*kind == CACHE_DATA || *kind == CACHE_UNIFIED) && *level == LAST_LEVEL {
                    Some(WindowsCacheGroup { mask: *mask, l3_size: *size as usize })
                } else {
                    None
                }
            },
            _ => None,
        }
    }
}

/// The mask of the physical core that a record describes, none for a record
/// of another relationship.
pub open spec fn core_mask(info: ProcInfo) -> Option<u64> {
    match info {
        ProcInfo::ProcessorCore { mask } => Some(mask),
        _ => None,
    }
}

/// The last-level caches among `records`, in the order of their records.
pub open spec fn cache_groups(records: Seq<ProcInfo>) -> Seq<WindowsCacheGroup> {
    records.filter_map(|info: ProcInfo| WindowsCacheGroup::of(info))
}

/// The masks of the physical cores among `records`, in the order of their
/// records.
pub open spec fn core_masks(records: Seq<ProcInfo>) -> Seq<u64> {
    records.filter_map(|info: ProcInfo| core_mask(info))
}

/// Whether some cache of `groups` is shared by a processor of `mask`.
pub open spec fn covered(groups: Seq<WindowsCacheGroup>, mask: u64) -> bool {
    exists|at: int| 0 <= at < groups.len() && #[trigger] groups[at].mask & mask != 0
}

/// Whether the cache at `at` is the first of `groups` that a processor of
/// `mask` shares.
pub open spec fn first_cover(groups: Seq<WindowsCacheGroup>, mask: u64, at: int) -> bool {
    &&& 0 <= at < groups.len()
    &&& groups[at].mask & mask != 0
    &&& forall|j: int| 0 <= j < at ==> #[trigger] groups[j].mask & mask == 0
}

/// The core with the processors of `mask` behind the cache at `at`.
///
/// The position of the lowest processor of the mask is the core's index; that
/// position divided by [`SMT_WIDTH`] is its physical core. The position of the
/// cache among `groups` is the identifier of its cache group.
pub open spec fn core_behind(groups: Seq<WindowsCacheGroup>, mask: u64, at: int) -> Cpu {
    Cpu {
        physical_core: (u64_trailing_zeros(mask) / SMT_WIDTH) as usize,
        logical_core: u64_trailing_zeros(mask) as usize,
        affinity_mask: mask,
        l3_group: CacheGroup { id: at as usize, size: groups[at].l3_size },
    }
}

/// Whether `cpus` are the cores of `records`: one for each processor-core
/// record, in order, each behind the first last-level cache that it shares.
pub open spec fn cores_of(records: Seq<ProcInfo>, cpus: Seq<Cpu>) -> bool {
    &&& cpus.len() == core_masks(records).len()
    &&& forall|i: int|
        0 <= i < cpus.len() ==> {
            &&& first_cover(
                cache_groups(records),
                core_masks(records)[i],
                (#[trigger] cpus[i]).l3_group.id as int,
            )
            &&& cpus[i] == core_behind(
                cache_groups(records),
                core_masks(records)[i],
                cpus[i].l3_group.id as int,
            )
        }
}

/// Whether every physical core of `records` shares a last-level cache.
pub open spec fn all_covered(records: Seq<ProcInfo>) -> bool {
    forall|i: int|
        0 <= i < core_masks(records).len() ==> covered(
            cache_groups(records),
            #[trigger] core_masks(records)[i],
        )
}

proof fn lemma_push_record(done: Seq<ProcInfo>, info: ProcInfo)
    ensures
        cache_groups(done.push(info)) == match WindowsCacheGroup::of(info) {
            Some(group) => cache_groups(done).push(group),
            None => cache_groups(done),
        },
        core_masks(done.push(info)) == match core_mask(info) {
            Some(mask) => core_masks(done).push(mask),
            None => core_masks(done),
        },
{
    assert(done.push(info).drop_last() == done);
}

fn find_cover(groups: &Vec<WindowsCacheGroup>, mask: u64) -> (r: Option<usize>)
    ensures
        match r {
            Some(at) => first_cover(groups@, mask, at as int),
            None => !covered(groups@, mask),
        },
{
    let mut at: usize = 0;
    while at < groups.len()
        invariant
            at <= groups.len(),
            forall|j: int| 0 <= j < at ==> #[trigger] groups@[j].mask & mask == 0,
        decreases groups.len() - at,
    {
        if groups[at].mask & mask != 0 {
            return Some(at);
        }
        at += 1;
    }
    None
}

/// Decodes every record of `buffer`.
#[verifier::loop_isolation(false)]
pub fn decode(buffer: Vec<u8>) -> (r: Result<Vec<ProcInfo>, Error>)
    ensures
        match r {
            Ok(infos) => records(buffer@) == Some(infos@),
            Err(e) => e == Error::Parse && records(buffer@) is None,
        },
{
    let ghost bytes = buffer@;
    let mut walk = ProcInfoIterator::new(buffer);
    let mut infos: Vec<ProcInfo> = Vec::new();
    loop
        invariant
            records(bytes) == match records(walk.remaining()) {
                Some(rest) => Some(infos@ + rest),
                None => None,
            },
        decreases walk.remaining().len(),
    {
        let ghost before = walk.remaining();
        match walk.next() {
            None => {
                assert(infos@ + Seq::<ProcInfo>::empty() == infos@);
                return Ok(infos);
            },
            Some(Err(e)) => {
                return Err(e);
            },
            Some(Ok(info)) => {
                infos.push(info);
                proof {
                    let len = record_len(before)->0;
                    if let Some(rest) = records(before.skip(len)) {
                        assert(infos@ + rest == infos@.drop_last() + (seq![info] + rest));
                    }
                }
            },
        }
    }
}

/// Reads the cores of the machine off a buffer of records.
///
/// Every processor-core record gives one core, in the order of the records.
/// Its cache group is the first last-level cache whose mask has a processor in
/// common with the core's, numbered by its place among the last-level caches
/// of the buffer. A buffer with a malformed record, or with a core that shares
/// no last-level cache, is rejected as a whole, and a buffer without a core is
/// no topology.
#[verifier::loop_isolation(false)]
pub fn cpus(buffer: Vec<u8>) -> (r: Result<Vec<Cpu>, Error>)
    ensures
        match r {
            Ok(cpus) => records(buffer@) matches Some(infos) && all_covered(infos) && cores_of(
                infos,
                cpus@,
            ) && cpus@.len() > 0,
            Err(e) => match records(buffer@) {
                Some(infos) => if all_covered(infos) {
                    e == Error::Io && core_masks(infos).len() == 0
                } else {
                    e == Error::Parse
                },
                None => e == Error::Parse,
            },
        },
{
    let infos = match decode(buffer) {
        Ok(infos) => infos,
        Err(e) => {
            return Err(e);
        },
    };
    let mut groups: Vec<WindowsCacheGroup> = Vec::new();
    let mut processors: Vec<u64> = Vec::new();
    let mut n: usize = 0;
    while n < infos.len()
        invariant
            n <= infos.len(),
            groups@ == cache_groups(infos@.take(n as int)),
            processors@ == core_masks(infos@.take(n as int)),
        decreases infos.len() - n,
    {
        proof {
            lemma_push_record(infos@.take(n as int), infos@[n as int]);
            assert(infos@.take(n + 1) == infos@.take(n as int).push(infos@[n as int]));
        }
        let info = infos[n];
        if let Some(group) = WindowsCacheGroup::from_l3(&info) {
            groups.push(group);
        }
        if let ProcInfo::ProcessorCore { mask } = info {
            processors.push(mask);
        }
        n += 1;
    }
    assert(infos@.take(n as int) == infos@);
    let mut cpus: Vec<Cpu> = Vec::new();
    let mut i: usize = 0;
    while i < processors.len()
        invariant
            i <= processors.len(),
            cpus.len() == i,
            groups@ == cache_groups(infos@),
            processors@ == core_masks(infos@),
            forall|k: int| 0 <= k < i ==> covered(groups@, #[trigger] processors@[k]),
            forall|k: int|
                0 <= k < i ==> {
                    &&& first_cover(
                        groups@,
                        processors@[k],
                        (#[trigger] cpus@[k]).l3_group.id as int,
                    )
                    &&& cpus@[k] == core_behind(groups@, processors@[k], cpus@[k].l3_group.id as int)
                },
        decreases processors.len() - i,
    {
        let mask = processors[i];
        match find_cover(&groups, mask) {
            None => {
                assert(!covered(cache_groups(infos@), core_masks(infos@)[i as int]));
                return Err(Error::Parse);
            },
            Some(at) => {
                assert(covered(groups@, mask));
                let lowest = mask.trailing_zeros();
                let cpu = Cpu {
                    physical_core: (lowest / SMT_WIDTH) as usize,
                    logical_core: lowest as usize,
                    affinity_mask: mask,
                    l3_group: CacheGroup { id: at, size: groups[at].l3_size },
                };
                assert(cpu == core_behind(groups@, mask, at as int));
                cpus.push(cpu);
            },
        }
        i += 1;
    }
    if cpus.len() == 0 {
        return Err(Error::Io);
    }
    Ok(cpus)
}

} // verus!
