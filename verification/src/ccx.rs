//! Core complexes: the cores of the machine, grouped by the last-level cache
//! that they share.

use crate::error::Error;
use crate::mask::union_of;
use crate::sched::{cpuset_cores, cpuset_insert, cpuset_new, CPU_SET_CAPACITY};
use crate::topology::Cpu;
use nix::sched::CpuSet;
use vstd::multiset::Multiset;
use vstd::prelude::*;

verus! {

/// The cores that share one last-level cache.
#[derive(Debug, Clone)]
pub struct Ccx {
    /// The cores of the complex.
    pub cpus: Vec<Cpu>,
}

impl View for Ccx {
    type V = Seq<Cpu>;

    open spec fn view(&self) -> Seq<Cpu> {
        self.cpus@
    }
}

/// The greatest physical core among `cpus`, zero where there is no core.
pub open spec fn highest_core(cpus: Seq<Cpu>) -> int
    decreases cpus.len(),
{
    if cpus.len() == 0 {
        0
    } else if cpus.last().physical_core > highest_core(cpus.drop_last()) {
        cpus.last().physical_core as int
    } else {
        highest_core(cpus.drop_last())
    }
}

/// The masks of `cpus`, in their order.
pub open spec fn masks_of(cpus: Seq<Cpu>) -> Seq<u64> {
    cpus.map_values(|cpu: Cpu| cpu.affinity_mask)
}

/// No core of `cpus` has a physical core above `highest_core(cpus)`, and one
/// of them has that physical core.
pub proof fn lemma_highest_core(cpus: Seq<Cpu>)
    requires
        cpus.len() > 0,
    ensures
        forall|i: int| 0 <= i < cpus.len() ==> (#[trigger] cpus[i]).physical_core <= highest_core(cpus),
        exists|i: int| 0 <= i < cpus.len() && (#[trigger] cpus[i]).physical_core == highest_core(cpus),
    decreases cpus.len(),
{
    let rest = cpus.drop_last();
    if rest.len() == 0 {
        assert(highest_core(rest) == 0);
        assert(cpus[0].physical_core == highest_core(cpus));
    } else {
        lemma_highest_core(rest);
        let at = choose|i: int| 0 <= i < rest.len() && (#[trigger] rest[i]).physical_core == highest_core(rest);
        assert(rest[at] == cpus[at]);
        assert forall|i: int| 0 <= i < cpus.len() implies (#[trigger] cpus[i]).physical_core
            <= highest_core(cpus) by {
            if i < rest.len() {
                assert(rest[i] == cpus[i]);
            }
        }
        if cpus.last().physical_core > highest_core(rest) {
            assert(cpus[cpus.len() - 1].physical_core == highest_core(cpus));
        } else {
            assert(cpus[at].physical_core == highest_core(cpus));
        }
    }
}

impl Ccx {
    /// The identifier of the cache that the cores of the complex share.
    pub open spec fn cache_id(self) -> usize {
        self@[0].l3_group.id
    }

    /// Whether the complex has a core, and all its cores share one cache.
    pub open spec fn well_formed(self) -> bool {
        &&& self@.len() > 0
        &&& forall|j: int| 0 <= j < self@.len() ==> (#[trigger] self@[j]).l3_group.id == self.cache_id()
    }

    /// The processors of all cores of the complex together.
    pub open spec fn mask(self) -> u64 {
        union_of(masks_of(self@))
    }

    /// The indices of the cores of the complex.
    pub open spec fn core_set(self) -> Set<int> {
        Set::new(
            |core: int|
                exists|j: int| 0 <= j < self@.len() && (#[trigger] self@[j]).logical_core == core,
        )
    }

    /// Whether a `CpuSet` has room for every core of the complex.
    pub open spec fn fits_cpuset(self) -> bool {
        forall|j: int| 0 <= j < self@.len() ==> (#[trigger] self@[j]).logical_core < CPU_SET_CAPACITY
    }

    /// Adds the cores of the complex to `set`. A complex with a core that
    /// `set` has no room for is refused; `set` may then hold some of its
    /// cores.
    pub fn add_to(&self, set: &mut CpuSet) -> (r: Result<(), Error>)
        ensures
            match r {
                Ok(()) => self.fits_cpuset() && cpuset_cores(*final(set)) == cpuset_cores(
                    *old(set),
                ).union(self.core_set()),
                Err(e) => e == Error::Config && !self.fits_cpuset(),
            },
    {
        let mut j: usize = 0;
        while j < self.cpus.len()
            invariant
                j <= self@.len(),
                forall|i: int| 0 <= i < j ==> (#[trigger] self@[i]).logical_core < CPU_SET_CAPACITY,
                forall|core: int|
                    cpuset_cores(*set).contains(core) <==> cpuset_cores(*old(set)).contains(core)
                        || exists|i: int| 0 <= i < j && (#[trigger] self@[i]).logical_core == core,
            decreases self@.len() - j,
        {
            match cpuset_insert(set, self.cpus[j].logical_core) {
                Ok(()) => {},
                Err(_) => {
                    return Err(Error::Config);
                },
            }
            j += 1;
        }
        assert(cpuset_cores(*set) =~= cpuset_cores(*old(set)).union(self.core_set()));
        Ok(())
    }

    /// The identifier of the die that holds the complex: the highest physical
    /// core of the complex, divided by the number of its cores.
    pub fn ccd_id(&self) -> (r: usize)
        requires
            self@.len() > 0,
        ensures
            r == highest_core(self@) / (self@.len() as int),
    {
        let count = self.cpus.len();
        let mut highest: usize = 0;
        let mut i: usize = 0;
        assert(self@.take(0) == Seq::<Cpu>::empty());
        while i < count
            invariant
                count == self@.len(),
                i <= count,
                highest == highest_core(self@.take(i as int)),
            decreases count - i,
        {
            assert(self@.take(i + 1).drop_last() == self@.take(i as int));
            if self.cpus[i].physical_core > highest {
                highest = self.cpus[i].physical_core;
            }
            i += 1;
        }
        assert(self@.take(count as int) == self@);
        highest / count
    }

    /// The mask that lets a process run on the cores of the complex and on no
    /// other.
    pub fn affinity_mask(&self) -> (r: u64)
        ensures
            r == self.mask(),
    {
        let mut mask: u64 = 0;
        let mut i: usize = 0;
        assert(masks_of(self@).take(0) == Seq::<u64>::empty());
        while i < self.cpus.len()
            invariant
                i <= self@.len(),
                mask == union_of(masks_of(self@).take(i as int)),
            decreases self@.len() - i,
        {
            assert(masks_of(self@).take(i + 1).drop_last() == masks_of(self@).take(i as int));
            mask |= self.cpus[i].affinity_mask;
            i += 1;
        }
        assert(masks_of(self@).take(i as int) == masks_of(self@));
        mask
    }
}

/// The test that picks the cores behind the cache `id`.
pub open spec fn behind(id: usize) -> spec_fn(Cpu) -> bool {
    |cpu: Cpu| cpu.l3_group.id == id
}

/// The cores of `cpus` behind the cache `id`, in their order.
pub open spec fn members(cpus: Seq<Cpu>, id: usize) -> Seq<Cpu> {
    cpus.filter(behind(id))
}

/// Whether one of `ccxes` is the complex of the cache `id`.
pub open spec fn has_complex(ccxes: Seq<Ccx>, id: usize) -> bool {
    exists|k: int| 0 <= k < ccxes.len() && (#[trigger] ccxes[k]).cache_id() == id
}

/// Whether `ccxes` are the complexes of `cpus`: each of them holds all cores
/// behind one cache, in the order of `cpus`, and at least one; they stand in
/// the ascending order of their caches' identifiers; and the cache of every
/// core has its complex.
pub open spec fn complexes_of(cpus: Seq<Cpu>, ccxes: Seq<Ccx>) -> bool {
    &&& forall|k: int|
        0 <= k < ccxes.len() ==> (#[trigger] ccxes[k])@.len() > 0 && ccxes[k]@ == members(
            cpus,
            ccxes[k].cache_id(),
        )
    &&& forall|j: int, k: int|
        0 <= j < k < ccxes.len() ==> (#[trigger] ccxes[j]).cache_id() < (
        #[trigger] ccxes[k]).cache_id()
    &&& forall|i: int| 0 <= i < cpus.len() ==> has_complex(ccxes, (#[trigger] cpus[i]).l3_group.id)
}

fn least_cache_from(cpus: &[Cpu], floor: usize) -> (r: Option<usize>)
    ensures
        match r {
            Some(id) => {
                &&& floor <= id
                &&& exists|i: int| 0 <= i < cpus@.len() && (#[trigger] cpus@[i]).l3_group.id == id
                &&& forall|i: int|
                    0 <= i < cpus@.len() && floor <= (#[trigger] cpus@[i]).l3_group.id ==> id
                        <= cpus@[i].l3_group.id
            },
            None => forall|i: int|
                0 <= i < cpus@.len() ==> (#[trigger] cpus@[i]).l3_group.id < floor,
        },
{
    let mut least: Option<usize> = None;
    let mut i: usize = 0;
    while i < cpus.len()
        invariant
            i <= cpus@.len(),
            match least {
                Some(id) => {
                    &&& floor <= id
                    &&& exists|k: int| 0 <= k < i && (#[trigger] cpus@[k]).l3_group.id == id
                    &&& forall|k: int|
                        0 <= k < i && floor <= (#[trigger] cpus@[k]).l3_group.id ==> id
                            <= cpus@[k].l3_group.id
                },
                None => forall|k: int| 0 <= k < i ==> (#[trigger] cpus@[k]).l3_group.id < floor,
            },
        decreases cpus@.len() - i,
    {
        let id = cpus[i].l3_group.id;
        if id >= floor {
            let better = match least {
                Some(best) => id < best,
                None => true,
            };
            if better {
                least = Some(id);
            }
        }
        i += 1;
    }
    least
}

fn gather(cpus: &[Cpu], id: usize) -> (r: Vec<Cpu>)
    ensures
        r@ == members(cpus@, id),
{
    let mut found: Vec<Cpu> = Vec::new();
    let mut i: usize = 0;
    proof {
        assert(cpus@.take(0) == Seq::<Cpu>::empty());
        reveal(Seq::filter);
    }
    while i < cpus.len()
        invariant
            i <= cpus@.len(),
            found@ == members(cpus@.take(i as int), id),
        decreases cpus@.len() - i,
    {
        proof {
            assert(cpus@.take(i + 1) == cpus@.take(i as int).push(cpus@[i as int]));
            cpus@.take(i as int).lemma_filter_push(cpus@[i as int], behind(id));
        }
        if cpus[i].l3_group.id == id {
            found.push(cpus[i]);
        }
        i += 1;
    }
    assert(cpus@.take(i as int) == cpus@);
    found
}

/// Groups the cores of the machine into its complexes.
///
/// The complexes come in the ascending order of their caches' identifiers, so
/// that the same cores give the same complexes at the same places in whatever
/// order the cores were found. No core gives no complex.
pub fn find_ccxes(cpus: &[Cpu]) -> (ccxes: Vec<Ccx>)
    ensures
        complexes_of(cpus@, ccxes@),
        forall|k: int| 0 <= k < ccxes@.len() ==> (#[trigger] ccxes@[k]).well_formed(),
{
    let mut ccxes: Vec<Ccx> = Vec::new();
    let mut next = least_cache_from(cpus, 0);
    loop
        invariant
            forall|k: int|
                0 <= k < ccxes@.len() ==> (#[trigger] ccxes@[k])@.len() > 0 && ccxes@[k]@
                    == members(cpus@, ccxes@[k].cache_id()),
            forall|j: int, k: int|
                0 <= j < k < ccxes@.len() ==> (#[trigger] ccxes@[j]).cache_id() < (
                #[trigger] ccxes@[k]).cache_id(),
            match next {
                Some(id) => {
                    &&& forall|k: int| 0 <= k < ccxes@.len() ==> (#[trigger] ccxes@[k]).cache_id() < id
                    &&& exists|i: int| 0 <= i < cpus@.len() && (#[trigger] cpus@[i]).l3_group.id == id
                    &&& forall|i: int|
                        0 <= i < cpus@.len() && (#[trigger] cpus@[i]).l3_group.id < id
                            ==> has_complex(ccxes@, cpus@[i].l3_group.id)
                },
                None => forall|i: int|
                    0 <= i < cpus@.len() ==> has_complex(ccxes@, (#[trigger] cpus@[i]).l3_group.id),
            },
        ensures
            complexes_of(cpus@, ccxes@),
        decreases
            match next {
                Some(id) => usize::MAX - id + 1,
                None => 0,
            },
    {
        let id = match next {
            Some(id) => id,
            None => {
                break ;
            },
        };
        let group = gather(cpus, id);
        let ghost before = ccxes@;
        proof {
            let at = choose|i: int| 0 <= i < cpus@.len() && (#[trigger] cpus@[i]).l3_group.id == id;
            cpus@.lemma_filter_contains(behind(id), at);
            cpus@.lemma_filter_pred(behind(id), 0);
        }
        ccxes.push(Ccx { cpus: group });
        next = if id == usize::MAX {
            None
        } else {
            least_cache_from(cpus, id + 1)
        };
        proof {
            let last = ccxes@.len() - 1;
            assert(ccxes@[last].cache_id() == id);
            assert forall|k: int| 0 <= k < before.len() implies ccxes@[k] == before[k] by {}
            assert forall|i: int|
                0 <= i < cpus@.len() && (#[trigger] cpus@[i]).l3_group.id <= id implies has_complex(
                ccxes@,
                cpus@[i].l3_group.id,
            ) by {
                if cpus@[i].l3_group.id < id {
                    let k = choose|k: int|
                        0 <= k < before.len() && (#[trigger] before[k]).cache_id()
                            == cpus@[i].l3_group.id;
                    assert(ccxes@[k].cache_id() == cpus@[i].l3_group.id);
                } else {
                    assert(ccxes@[last].cache_id() == cpus@[i].l3_group.id);
                }
            }
        }
    }
    proof {
        assert forall|k: int| 0 <= k < ccxes@.len() implies (#[trigger] ccxes@[k]).well_formed() by {
            lemma_members_share(cpus@, ccxes@[k].cache_id());
        }
    }
    ccxes
}

proof fn lemma_members_share(cpus: Seq<Cpu>, id: usize)
    ensures
        forall|j: int|
            0 <= j < members(cpus, id).len() ==> (#[trigger] members(cpus, id)[j]).l3_group.id == id,
{
    assert forall|j: int| 0 <= j < members(cpus, id).len() implies (#[trigger] members(
        cpus,
        id,
    )[j]).l3_group.id == id by {
        cpus.lemma_filter_pred(behind(id), j);
    }
}

/// The cores of all of `ccxes`, each as often as it occurs in them.
pub open spec fn cpus_in(ccxes: Seq<Ccx>) -> Multiset<Cpu>
    decreases ccxes.len(),
{
    if ccxes.len() == 0 {
        Multiset::empty()
    } else {
        cpus_in(ccxes.drop_last()).add(ccxes.last()@.to_multiset())
    }
}

/// The cores of `cpus` behind the caches `ids`, each as often as it occurs
/// behind them.
spec fn cores_behind(cpus: Seq<Cpu>, ids: Seq<usize>) -> Multiset<Cpu>
    decreases ids.len(),
{
    if ids.len() == 0 {
        Multiset::empty()
    } else {
        cores_behind(cpus, ids.drop_last()).add(members(cpus, ids.last()).to_multiset())
    }
}

proof fn lemma_behind_push(cpus: Seq<Cpu>, cpu: Cpu, ids: Seq<usize>)
    requires
        forall|j: int, k: int| 0 <= j < k < ids.len() ==> ids[j] != ids[k],
    ensures
        cores_behind(cpus.push(cpu), ids) == if ids.contains(cpu.l3_group.id) {
            cores_behind(cpus, ids).insert(cpu)
        } else {
            cores_behind(cpus, ids)
        },
    decreases ids.len(),
{
    broadcast use vstd::seq_lib::group_to_multiset_ensures;

    if ids.len() > 0 {
        let rest = ids.drop_last();
        let id = ids.last();
        lemma_behind_push(cpus, cpu, rest);
        cpus.lemma_filter_push(cpu, behind(id));
        assert(ids[ids.len() - 1] == id);
        if cpu.l3_group.id == id {
            assert(!rest.contains(id)) by {
                if rest.contains(id) {
                    let j = choose|j: int| 0 <= j < rest.len() && rest[j] == id;
                    assert(ids[j] == ids[ids.len() - 1]);
                }
            }
            assert(cores_behind(cpus.push(cpu), ids) =~= cores_behind(cpus, ids).insert(cpu));
        } else {
            assert(rest.contains(cpu.l3_group.id) == ids.contains(cpu.l3_group.id)) by {
                if rest.contains(cpu.l3_group.id) {
                    let j = choose|j: int| 0 <= j < rest.len() && rest[j] == cpu.l3_group.id;
                    assert(ids[j] == cpu.l3_group.id);
                }
                if ids.contains(cpu.l3_group.id) {
                    let j = choose|j: int| 0 <= j < ids.len() && ids[j] == cpu.l3_group.id;
                    assert(rest[j] == cpu.l3_group.id);
                }
            }
            if rest.contains(cpu.l3_group.id) {
                assert(cores_behind(cpus.push(cpu), ids) =~= cores_behind(cpus, ids).insert(cpu));
            }
        }
    }
}

proof fn lemma_behind_all(cpus: Seq<Cpu>, ids: Seq<usize>)
    requires
        forall|j: int, k: int| 0 <= j < k < ids.len() ==> ids[j] != ids[k],
        forall|i: int| 0 <= i < cpus.len() ==> ids.contains((#[trigger] cpus[i]).l3_group.id),
    ensures
        cores_behind(cpus, ids) == cpus.to_multiset(),
    decreases cpus.len(), ids.len(),
{
    broadcast use vstd::seq_lib::group_to_multiset_ensures;

    if cpus.len() == 0 {
        reveal(Seq::filter);
        if ids.len() > 0 {
            lemma_behind_all(cpus, ids.drop_last());
            assert(members(cpus, ids.last()) == Seq::<Cpu>::empty());
            assert(cores_behind(cpus, ids) =~= cpus.to_multiset());
        } else {
            assert(cores_behind(cpus, ids) =~= cpus.to_multiset());
        }
    } else {
        let rest = cpus.drop_last();
        let cpu = cpus.last();
        assert(cpus == rest.push(cpu));
        assert forall|i: int| 0 <= i < rest.len() implies ids.contains(
            (#[trigger] rest[i]).l3_group.id,
        ) by {
            assert(rest[i] == cpus[i]);
        }
        lemma_behind_all(rest, ids);
        lemma_behind_push(rest, cpu, ids);
        assert(ids.contains(cpus[cpus.len() - 1].l3_group.id));
    }
}

proof fn lemma_cpus_in(cpus: Seq<Cpu>, ccxes: Seq<Ccx>)
    requires
        forall|k: int|
            0 <= k < ccxes.len() ==> (#[trigger] ccxes[k])@ == members(cpus, ccxes[k].cache_id()),
    ensures
        cpus_in(ccxes) == cores_behind(cpus, ccxes.map_values(|ccx: Ccx| ccx.cache_id())),
    decreases ccxes.len(),
{
    let ids = ccxes.map_values(|ccx: Ccx| ccx.cache_id());
    if ccxes.len() > 0 {
        lemma_cpus_in(cpus, ccxes.drop_last());
        assert(ids.drop_last() == ccxes.drop_last().map_values(|ccx: Ccx| ccx.cache_id()));
        assert(ccxes.last() == ccxes[ccxes.len() - 1]);
    }
}

/// The complexes of the machine divide its cores among them: together they
/// hold every core as often as the machine has it, and no core is in two of
/// them.
pub proof fn lemma_partition(cpus: Seq<Cpu>, ccxes: Seq<Ccx>)
    requires
        complexes_of(cpus, ccxes),
    ensures
        cpus_in(ccxes) == cpus.to_multiset(),
        forall|cpu: Cpu|
            cpus.contains(cpu) <==> exists|k: int|
                0 <= k < ccxes.len() && (#[trigger] ccxes[k])@.contains(cpu),
        forall|j: int, k: int, cpu: Cpu|
            0 <= j < ccxes.len() && 0 <= k < ccxes.len() && #[trigger] ccxes[j]@.contains(cpu)
                && #[trigger] ccxes[k]@.contains(cpu) ==> j == k,
{
    let ids = ccxes.map_values(|ccx: Ccx| ccx.cache_id());
    assert forall|i: int| 0 <= i < cpus.len() implies ids.contains(
        (#[trigger] cpus[i]).l3_group.id,
    ) by {
        let k = choose|k: int|
            0 <= k < ccxes.len() && (#[trigger] ccxes[k]).cache_id() == cpus[i].l3_group.id;
        assert(ids[k] == cpus[i].l3_group.id);
    }
    assert forall|j: int, k: int| 0 <= j < k < ids.len() implies ids[j] != ids[k] by {
        assert(ccxes[j].cache_id() < ccxes[k].cache_id());
    }
    lemma_cpus_in(cpus, ccxes);
    lemma_behind_all(cpus, ids);
    assert forall|k: int, cpu: Cpu|
        0 <= k < ccxes.len() && #[trigger] ccxes[k]@.contains(cpu) implies cpus.contains(cpu)
        && cpu.l3_group.id == ccxes[k].cache_id() by {
        cpus.lemma_filter_contains_rev(behind(ccxes[k].cache_id()), cpu);
        let at = choose|at: int| 0 <= at < ccxes[k]@.len() && ccxes[k]@[at] == cpu;
        cpus.lemma_filter_pred(behind(ccxes[k].cache_id()), at);
    }
    assert forall|cpu: Cpu| cpus.contains(cpu) implies exists|k: int|
        0 <= k < ccxes.len() && (#[trigger] ccxes[k])@.contains(cpu) by {
        let i = choose|i: int| 0 <= i < cpus.len() && cpus[i] == cpu;
        let k = choose|k: int|
            0 <= k < ccxes.len() && (#[trigger] ccxes[k]).cache_id() == cpus[i].l3_group.id;
        cpus.lemma_filter_contains(behind(ccxes[k].cache_id()), i);
    }
    assert forall|j: int, k: int, cpu: Cpu|
        0 <= j < ccxes.len() && 0 <= k < ccxes.len() && #[trigger] ccxes[j]@.contains(cpu)
            && #[trigger] ccxes[k]@.contains(cpu) implies j == k by {
        assert(ccxes[j].cache_id() == ccxes[k].cache_id());
        if j < k {
            assert(ccxes[j].cache_id() < ccxes[k].cache_id());
        }
        if k < j {
            assert(ccxes[k].cache_id() < ccxes[j].cache_id());
        }
    }
}

/// The indices of the cores of all of `ccxes`.
pub open spec fn core_set_of(ccxes: Seq<Ccx>) -> Set<int> {
    Set::new(
        |core: int| exists|k: int| 0 <= k < ccxes.len() && (#[trigger] ccxes[k]).core_set().contains(core),
    )
}

/// Whether a `CpuSet` has room for every core of `ccxes`.
pub open spec fn fit_cpuset(ccxes: Seq<Ccx>) -> bool {
    forall|k: int| 0 <= k < ccxes.len() ==> (#[trigger] ccxes[k]).fits_cpuset()
}

/// One complex more adds its cores to those of the complexes before it.
pub proof fn lemma_core_set_grows(ccxes: Seq<Ccx>, k: int)
    requires
        0 <= k < ccxes.len(),
    ensures
        core_set_of(ccxes.take(k + 1)) == core_set_of(ccxes.take(k)).union(ccxes[k].core_set()),
        fit_cpuset(ccxes.take(k + 1)) == (fit_cpuset(ccxes.take(k)) && ccxes[k].fits_cpuset()),
{
    let shorter = ccxes.take(k);
    let longer = ccxes.take(k + 1);
    assert(longer[k] == ccxes[k]);
    assert forall|core: int|
        core_set_of(longer).contains(core) <==> core_set_of(shorter).contains(core)
            || ccxes[k].core_set().contains(core) by {
        if core_set_of(shorter).contains(core) {
            let i = choose|i: int| 0 <= i < k && (#[trigger] shorter[i]).core_set().contains(core);
            assert(longer[i].core_set().contains(core));
        }
        if core_set_of(longer).contains(core) {
            let i = choose|i: int|
                0 <= i < longer.len() && (#[trigger] longer[i]).core_set().contains(core);
            if i < k {
                assert(shorter[i].core_set().contains(core));
            }
        }
    }
    assert(core_set_of(longer) =~= core_set_of(shorter).union(ccxes[k].core_set()));
    if fit_cpuset(longer) {
        assert forall|i: int| 0 <= i < shorter.len() implies (#[trigger] shorter[i]).fits_cpuset() by {
            assert(shorter[i] == longer[i]);
        }
    }
    if fit_cpuset(shorter) && ccxes[k].fits_cpuset() {
        assert forall|i: int| 0 <= i < longer.len() implies (#[trigger] longer[i]).fits_cpuset() by {
            if i < k {
                assert(longer[i] == shorter[i]);
            }
        }
    }
}

/// The set of the cores of all of `ccxes`. Complexes with a core that the set
/// has no room for are refused.
pub fn cpuset_of(ccxes: &[Ccx]) -> (r: Result<CpuSet, Error>)
    ensures
        match r {
            Ok(set) => fit_cpuset(ccxes@) && cpuset_cores(set) == core_set_of(ccxes@),
            Err(e) => e == Error::Config && !fit_cpuset(ccxes@),
        },
{
    let mut set = cpuset_new();
    let mut k: usize = 0;
    while k < ccxes.len()
        invariant
            k <= ccxes@.len(),
            fit_cpuset(ccxes@.take(k as int)),
            cpuset_cores(set) == core_set_of(ccxes@.take(k as int)),
        decreases ccxes@.len() - k,
    {
        match ccxes[k].add_to(&mut set) {
            Ok(()) => {},
            Err(e) => {
                return Err(e);
            },
        }
        proof {
            lemma_core_set_grows(ccxes@, k as int);
        }
        k += 1;
    }
    assert(ccxes@.take(k as int) == ccxes@);
    Ok(set)
}

proof fn lemma_ascending_same(a: Seq<usize>, b: Seq<usize>)
    requires
        forall|j: int, k: int| 0 <= j < k < a.len() ==> a[j] < a[k],
        forall|j: int, k: int| 0 <= j < k < b.len() ==> b[j] < b[k],
        forall|i: int| 0 <= i < a.len() ==> b.contains(#[trigger] a[i]),
        forall|i: int| 0 <= i < b.len() ==> a.contains(#[trigger] b[i]),
    ensures
        a == b,
    decreases a.len(),
{
    if a.len() == 0 {
        if b.len() > 0 {
            assert(a.contains(b[0]));
        }
        assert(a =~= b);
    } else {
        let top = a.last();
        assert(b.contains(a[a.len() - 1]));
        let at = choose|at: int| 0 <= at < b.len() && b[at] == top;
        assert(at == b.len() - 1) by {
            if at < b.len() - 1 {
                let above = b[b.len() - 1];
                assert(a.contains(above));
                let i = choose|i: int| 0 <= i < a.len() && a[i] == above;
                assert(a[i] <= a[a.len() - 1]);
            }
        }
        let a0 = a.drop_last();
        let b0 = b.drop_last();
        assert forall|i: int| 0 <= i < a0.len() implies b0.contains(#[trigger] a0[i]) by {
            assert(b.contains(a[i]));
            let j = choose|j: int| 0 <= j < b.len() && b[j] == a[i];
            assert(a[i] < a[a.len() - 1]);
            assert(b0[j] == a0[i]);
        }
        assert forall|i: int| 0 <= i < b0.len() implies a0.contains(#[trigger] b0[i]) by {
            assert(a.contains(b[i]));
            let j = choose|j: int| 0 <= j < a.len() && a[j] == b[i];
            assert(b[i] < b[b.len() - 1]);
            assert(a0[j] == b0[i]);
        }
        lemma_ascending_same(a0, b0);
        assert(a =~= a0.push(top));
        assert(b =~= b0.push(top));
    }
}

proof fn lemma_same_caches(first: Seq<Cpu>, a: Seq<Ccx>, second: Seq<Cpu>, b: Seq<Ccx>)
    requires
        complexes_of(first, a),
        complexes_of(second, b),
        forall|cpu: Cpu| first.contains(cpu) <==> second.contains(cpu),
    ensures
        a.len() == b.len(),
        forall|k: int| 0 <= k < a.len() ==> (#[trigger] a[k]).cache_id() == b[k].cache_id(),
{
    let ids_a = a.map_values(|ccx: Ccx| ccx.cache_id());
    let ids_b = b.map_values(|ccx: Ccx| ccx.cache_id());
    assert forall|j: int, k: int| 0 <= j < k < ids_a.len() implies ids_a[j] < ids_a[k] by {
        assert(a[j].cache_id() < a[k].cache_id());
    }
    assert forall|j: int, k: int| 0 <= j < k < ids_b.len() implies ids_b[j] < ids_b[k] by {
        assert(b[j].cache_id() < b[k].cache_id());
    }
    assert forall|i: int| 0 <= i < ids_a.len() implies ids_b.contains(#[trigger] ids_a[i]) by {
        lemma_first_member(first, a[i]);
        let at = choose|at: int| 0 <= at < second.len() && second[at] == a[i]@[0];
        assert(has_complex(b, second[at].l3_group.id));
        let k = choose|k: int| 0 <= k < b.len() && (#[trigger] b[k]).cache_id() == ids_a[i];
        assert(ids_b[k] == ids_a[i]);
    }
    assert forall|i: int| 0 <= i < ids_b.len() implies ids_a.contains(#[trigger] ids_b[i]) by {
        lemma_first_member(second, b[i]);
        let at = choose|at: int| 0 <= at < first.len() && first[at] == b[i]@[0];
        assert(has_complex(a, first[at].l3_group.id));
        let k = choose|k: int| 0 <= k < a.len() && (#[trigger] a[k]).cache_id() == ids_b[i];
        assert(ids_a[k] == ids_b[i]);
    }
    lemma_ascending_same(ids_a, ids_b);
    assert forall|k: int| 0 <= k < a.len() implies (#[trigger] a[k]).cache_id() == b[k].cache_id() by {
        assert(ids_a[k] == ids_b[k]);
    }
}

proof fn lemma_first_member(cpus: Seq<Cpu>, ccx: Ccx)
    requires
        ccx@.len() > 0,
        ccx@ == members(cpus, ccx.cache_id()),
    ensures
        cpus.contains(ccx@[0]),
{
    assert(ccx@.contains(ccx@[0]));
    cpus.lemma_filter_contains_rev(behind(ccx.cache_id()), ccx@[0]);
}

proof fn lemma_members_multiset(cpus: Seq<Cpu>, id: usize)
    ensures
        members(cpus, id).to_multiset() == cpus.to_multiset().filter(behind(id)),
    decreases cpus.len(),
{
    broadcast use vstd::seq_lib::group_to_multiset_ensures;
    broadcast use vstd::multiset::group_multiset_axioms;

    if cpus.len() == 0 {
        reveal(Seq::filter);
        assert(members(cpus, id).to_multiset() =~= cpus.to_multiset().filter(behind(id)));
    } else {
        let rest = cpus.drop_last();
        let cpu = cpus.last();
        assert(cpus == rest.push(cpu));
        lemma_members_multiset(rest, id);
        rest.lemma_filter_push(cpu, behind(id));
        assert(members(cpus, id).to_multiset() =~= cpus.to_multiset().filter(behind(id)));
    }
}

/// The cores of the machine have one list of complexes and no other: two
/// lists that are both the complexes of `cpus` hold the same cores at the
/// same places.
pub proof fn lemma_complexes_unique(cpus: Seq<Cpu>, a: Seq<Ccx>, b: Seq<Ccx>)
    requires
        complexes_of(cpus, a),
        complexes_of(cpus, b),
    ensures
        a.len() == b.len(),
        forall|k: int| 0 <= k < a.len() ==> (#[trigger] a[k])@ == b[k]@,
{
    lemma_same_caches(cpus, a, cpus, b);
}

/// The complexes do not depend on the order in which the cores were found:
/// the same cores in another order give as many complexes, with the same
/// caches at the same places and the same cores in each.
pub proof fn lemma_order_of_cores(first: Seq<Cpu>, a: Seq<Ccx>, second: Seq<Cpu>, b: Seq<Ccx>)
    requires
        complexes_of(first, a),
        complexes_of(second, b),
        first.to_multiset() == second.to_multiset(),
    ensures
        a.len() == b.len(),
        forall|k: int|
            0 <= k < a.len() ==> (#[trigger] a[k]).cache_id() == b[k].cache_id() && a[k]@.to_multiset()
                == b[k]@.to_multiset(),
{
    assert forall|cpu: Cpu| first.contains(cpu) <==> second.contains(cpu) by {
        vstd::seq_lib::to_multiset_contains(first, cpu);
        vstd::seq_lib::to_multiset_contains(second, cpu);
    }
    lemma_same_caches(first, a, second, b);
    assert forall|k: int| 0 <= k < a.len() implies (#[trigger] a[k]).cache_id() == b[k].cache_id()
        && a[k]@.to_multiset() == b[k]@.to_multiset() by {
        lemma_members_multiset(first, a[k].cache_id());
        lemma_members_multiset(second, b[k].cache_id());
    }
}

} // verus!
