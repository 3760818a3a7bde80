//! What the user asks for: which complexes each program is to run on, and
//! how often to look for new processes.

use crate::ccx::{core_set_of, fit_cpuset, lemma_core_set_grows, Ccx};
use crate::error::Error;
use crate::mask::{lemma_union_holds, lemma_union_least, lemma_union_of_same, union_of, within};
use crate::sched::{cpuset_cores, cpuset_new};
use nix::sched::CpuSet;
use vstd::prelude::*;

verus! {

/// The milliseconds between two scans where the configuration names none.
pub const DEFAULT_INTERVAL: u64 = 1000;

/// The complexes that a program is to run on: one, or several, each named by
/// its place among the complexes of the machine.
#[derive(Debug, Clone)]
pub enum CcxPreference {
    /// One complex.
    Singlular(usize),
    /// Several complexes, in any order.
    Multiple(Vec<usize>),
}

impl CcxPreference {
    /// The places that the selection names, in its order.
    pub open spec fn indices(self) -> Seq<usize> {
        match self {
            CcxPreference::Singlular(index) => seq![index],
            CcxPreference::Multiple(list) => list@,
        }
    }

    /// Whether every place that the selection names is one of `count`
    /// complexes.
    pub open spec fn fits(self, count: int) -> bool {
        forall|k: int| 0 <= k < self.indices().len() ==> #[trigger] self.indices()[k] < count
    }

    /// The complexes of `ccxes` that the selection names, in its order.
    pub open spec fn selected(self, ccxes: Seq<Ccx>) -> Seq<Ccx> {
        self.indices().map_values(|index: usize| ccxes[index as int])
    }

    /// The mask of the cores of every selected complex.
    pub open spec fn target_mask(self, ccxes: Seq<Ccx>) -> u64 {
        union_of(self.selected(ccxes).map_values(|ccx: Ccx| ccx.mask()))
    }

    /// The indices of the cores of every selected complex.
    pub open spec fn target_cores(self, ccxes: Seq<Ccx>) -> Set<int> {
        core_set_of(self.selected(ccxes))
    }

    /// Checks the selection against the number of complexes of the machine.
    pub fn validate(&self, count: usize) -> (r: Result<(), Error>)
        ensures
            r == if self.fits(count as int) {
                Ok::<(), Error>(())
            } else {
                Err::<(), Error>(Error::Config)
            },
    {
        match self {
            CcxPreference::Singlular(index) => {
                assert(self.indices()[0] == *index);
                if *index < count {
                    Ok(())
                } else {
                    Err(Error::Config)
                }
            },
            CcxPreference::Multiple(list) => {
                let mut k: usize = 0;
                while k < list.len()
                    invariant
                        k <= list@.len(),
                        list@ == self.indices(),
                        forall|i: int| 0 <= i < k ==> #[trigger] list@[i] < count,
                    decreases list@.len() - k,
                {
                    if list[k] >= count {
                        assert(self.indices()[k as int] >= count);
                        return Err(Error::Config);
                    }
                    k += 1;
                }
                Ok(())
            },
        }
    }

    /// The mask that lets a process run on the cores of every selected
    /// complex and on no other. A selection that names a place where `ccxes`
    /// has no complex is refused.
    pub fn affinity(&self, ccxes: &[Ccx]) -> (r: Result<u64, Error>)
        ensures
            r == if self.fits(ccxes@.len() as int) {
                Ok::<u64, Error>(self.target_mask(ccxes@))
            } else {
                Err::<u64, Error>(Error::Config)
            },
    {
        match self.validate(ccxes.len()) {
            Ok(()) => {},
            Err(e) => {
                return Err(e);
            },
        }
        let ghost masks = self.selected(ccxes@).map_values(|ccx: Ccx| ccx.mask());
        match self {
            CcxPreference::Singlular(index) => {
                assert(self.indices()[0] == *index);
                let mask = ccxes[*index].affinity_mask();
                proof {
                    assert(masks.drop_last() == Seq::<u64>::empty());
                    assert(union_of(masks.drop_last()) == 0);
                    assert(0u64 | mask == mask) by (bit_vector);
                }
                Ok(mask)
            },
            CcxPreference::Multiple(list) => {
                let mut mask: u64 = 0;
                let mut k: usize = 0;
                assert(masks.take(0) == Seq::<u64>::empty());
                while k < list.len()
                    invariant
                        k <= list@.len(),
                        list@ == self.indices(),
                        self.fits(ccxes@.len() as int),
                        masks == self.selected(ccxes@).map_values(|ccx: Ccx| ccx.mask()),
                        mask == union_of(masks.take(k as int)),
                    decreases list@.len() - k,
                {
                    assert(self.indices()[k as int] < ccxes@.len());
                    assert(masks.take(k + 1).drop_last() == masks.take(k as int));
                    mask |= ccxes[list[k]].affinity_mask();
                    k += 1;
                }
                assert(masks.take(k as int) == masks);
                Ok(mask)
            },
        }
    }

    /// Whether a `CpuSet` has room for every core of every selected complex.
    pub open spec fn fits_cpuset(self, ccxes: Seq<Ccx>) -> bool {
        fit_cpuset(self.selected(ccxes))
    }

    /// The set that lets a process run on the cores of every selected complex
    /// and on no other. A selection that names a place where `ccxes` has no
    /// complex is refused, and so is one with a core that the set has no room
    /// for.
    pub fn cpuset(&self, ccxes: &[Ccx]) -> (r: Result<CpuSet, Error>)
        ensures
            match r {
                Ok(set) => self.fits(ccxes@.len() as int) && self.fits_cpuset(ccxes@)
                    && cpuset_cores(set) == self.target_cores(ccxes@),
                Err(e) => e == Error::Config && !(self.fits(ccxes@.len() as int)
                    && self.fits_cpuset(ccxes@)),
            },
    {
        match self.validate(ccxes.len()) {
            Ok(()) => {},
            Err(e) => {
                return Err(e);
            },
        }
        let ghost chosen = self.selected(ccxes@);
        let mut set = cpuset_new();
        match self {
            CcxPreference::Singlular(index) => {
                assert(self.indices()[0] == *index);
                assert(chosen[0] == ccxes@[*index as int]);
                match ccxes[*index].add_to(&mut set) {
                    Ok(()) => {},
                    Err(e) => {
                        return Err(e);
                    },
                }
                assert(cpuset_cores(set) =~= core_set_of(chosen));
                Ok(set)
            },
            CcxPreference::Multiple(list) => {
                let mut k: usize = 0;
                while k < list.len()
                    invariant
                        k <= list@.len(),
                        list@ == self.indices(),
                        self.fits(ccxes@.len() as int),
                        chosen == self.selected(ccxes@),
                        fit_cpuset(chosen.take(k as int)),
                        cpuset_cores(set) == core_set_of(chosen.take(k as int)),
                    decreases list@.len() - k,
                {
                    assert(self.indices()[k as int] < ccxes@.len());
                    assert(chosen[k as int] == ccxes@[list@[k as int] as int]);
                    match ccxes[list[k]].add_to(&mut set) {
                        Ok(()) => {},
                        Err(e) => {
                            return Err(e);
                        },
                    }
                    proof {
                        lemma_core_set_grows(chosen, k as int);
                    }
                    k += 1;
                }
                assert(chosen.take(k as int) == chosen);
                Ok(set)
            },
        }
    }
}

/// What a selection resolves to depends on which complexes it names, not on
/// the order in which it names them nor on how often it names one.
pub proof fn lemma_selection_order(a: CcxPreference, b: CcxPreference, ccxes: Seq<Ccx>)
    requires
        forall|i: int| 0 <= i < a.indices().len() ==> b.indices().contains(#[trigger] a.indices()[i]),
        forall|j: int| 0 <= j < b.indices().len() ==> a.indices().contains(#[trigger] b.indices()[j]),
    ensures
        a.target_mask(ccxes) == b.target_mask(ccxes),
        a.target_cores(ccxes) == b.target_cores(ccxes),
{
    let masks_a = a.selected(ccxes).map_values(|ccx: Ccx| ccx.mask());
    let masks_b = b.selected(ccxes).map_values(|ccx: Ccx| ccx.mask());
    assert forall|i: int| 0 <= i < masks_a.len() implies masks_b.contains(#[trigger] masks_a[i]) by {
        let j = choose|j: int| 0 <= j < b.indices().len() && b.indices()[j] == a.indices()[i];
        assert(masks_b[j] == masks_a[i]);
    }
    assert forall|j: int| 0 <= j < masks_b.len() implies masks_a.contains(#[trigger] masks_b[j]) by {
        let i = choose|i: int| 0 <= i < a.indices().len() && a.indices()[i] == b.indices()[j];
        assert(masks_a[i] == masks_b[j]);
    }
    lemma_union_of_same(masks_a, masks_b);
    assert forall|core: int| a.target_cores(ccxes).contains(core) <==> b.target_cores(
        ccxes,
    ).contains(core) by {
        if a.target_cores(ccxes).contains(core) {
            let i = choose|i: int|
                0 <= i < a.selected(ccxes).len() && (#[trigger] a.selected(ccxes)[i]).core_set().contains(
                    core,
                );
            let j = choose|j: int| 0 <= j < b.indices().len() && b.indices()[j] == a.indices()[i];
            assert(b.selected(ccxes)[j].core_set().contains(core));
        }
        if b.target_cores(ccxes).contains(core) {
            let j = choose|j: int|
                0 <= j < b.selected(ccxes).len() && (#[trigger] b.selected(ccxes)[j]).core_set().contains(
                    core,
                );
            let i = choose|i: int| 0 <= i < a.indices().len() && a.indices()[i] == b.indices()[j];
            assert(a.selected(ccxes)[i].core_set().contains(core));
        }
    }
    assert(a.target_cores(ccxes) =~= b.target_cores(ccxes));
}

/// The mask of a selection holds the cores of each complex that it names.
pub proof fn lemma_target_holds(selection: CcxPreference, ccxes: Seq<Ccx>, k: int)
    requires
        0 <= k < selection.indices().len(),
    ensures
        within(ccxes[selection.indices()[k] as int].mask(), selection.target_mask(ccxes)),
{
    lemma_union_holds(selection.selected(ccxes).map_values(|ccx: Ccx| ccx.mask()), k);
}

/// The mask of a selection holds no core but those of the complexes that it
/// names: it lies within every mask that holds each of them.
pub proof fn lemma_target_least(selection: CcxPreference, ccxes: Seq<Ccx>, bound: u64)
    requires
        forall|k: int|
            0 <= k < selection.indices().len() ==> within(
                ccxes[#[trigger] selection.indices()[k] as int].mask(),
                bound,
            ),
    ensures
        within(selection.target_mask(ccxes), bound),
{
    let masks = selection.selected(ccxes).map_values(|ccx: Ccx| ccx.mask());
    assert forall|k: int| 0 <= k < masks.len() implies within(#[trigger] masks[k], bound) by {
        assert(masks[k] == ccxes[selection.indices()[k] as int].mask());
    }
    lemma_union_least(masks, bound);
}

/// A core is among the cores of a selection exactly if it is a core of a
/// complex that the selection names.
pub proof fn lemma_target_cores(selection: CcxPreference, ccxes: Seq<Ccx>, core: int)
    ensures
        selection.target_cores(ccxes).contains(core) <==> exists|k: int|
            0 <= k < selection.indices().len() && ccxes[#[trigger] selection.indices()[k] as int].core_set().contains(
                core,
            ),
{
    let chosen = selection.selected(ccxes);
    if selection.target_cores(ccxes).contains(core) {
        let k = choose|k: int| 0 <= k < chosen.len() && (#[trigger] chosen[k]).core_set().contains(core);
        assert(ccxes[selection.indices()[k] as int].core_set().contains(core));
    }
    if exists|k: int|
        0 <= k < selection.indices().len() && ccxes[#[trigger] selection.indices()[k] as int].core_set().contains(
            core,
        ) {
        let k = choose|k: int|
            0 <= k < selection.indices().len() && ccxes[#[trigger] selection.indices()[k] as int].core_set().contains(
                core,
            );
        assert(chosen[k].core_set().contains(core));
    }
}

/// The selection that `programs` holds for `name`: that of the first entry
/// with this name, letter for letter.
pub open spec fn lookup(programs: Seq<(String, CcxPreference)>, name: Seq<char>) -> Option<
    CcxPreference,
>
    decreases programs.len(),
{
    if programs.len() == 0 {
        None
    } else if programs.first().0@ == name {
        Some(programs.first().1)
    } else {
        lookup(programs.drop_first(), name)
    }
}

/// Whether no two entries of `programs` have the same name.
pub open spec fn distinct_names(programs: Seq<(String, CcxPreference)>) -> bool {
    forall|i: int, j: int|
        0 <= i < j < programs.len() ==> (#[trigger] programs[i]).0@ != (#[trigger] programs[j]).0@
}

/// The programs to pin, and how often to look for them.
#[derive(Debug, Clone)]
pub struct Config {
    /// The milliseconds to wait between two scans for processes.
    pub interval: Option<usize>,
    /// The selection of each program, by the name of its executable. No name
    /// occurs twice.
    pub programs: Vec<(String, CcxPreference)>,
}

impl Config {
    /// Whether the configuration names no program twice.
    pub open spec fn well_formed(self) -> bool {
        distinct_names(self.programs@)
    }

    /// The selection that the configuration holds for `name`.
    pub open spec fn selection(self, name: Seq<char>) -> Option<CcxPreference> {
        lookup(self.programs@, name)
    }

    /// The milliseconds between two scans: what the configuration names, or
    /// [`DEFAULT_INTERVAL`] where it names nothing.
    pub open spec fn interval_or_default(self) -> u64 {
        match self.interval {
            Some(millis) => millis as u64,
            None => DEFAULT_INTERVAL,
        }
    }

    /// Makes a configuration of an interval and the selections of programs.
    /// Programs of which one is named twice are refused.
    pub fn new(interval: Option<usize>, programs: Vec<(String, CcxPreference)>) -> (r: Result<
        Self,
        Error,
    >)
        ensures
            match r {
                Ok(config) => distinct_names(programs@) && config.interval == interval
                    && config.programs@ == programs@ && config.well_formed(),
                Err(e) => e == Error::Config && !distinct_names(programs@),
            },
    {
        let mut j: usize = 0;
        while j < programs.len()
            invariant
                j <= programs@.len(),
                distinct_names(programs@.take(j as int)),
            decreases programs@.len() - j,
        {
            let mut i: usize = 0;
            while i < j
                invariant
                    i <= j < programs@.len(),
                    forall|k: int| 0 <= k < i ==> (#[trigger] programs@[k]).0@ != programs@[j as int].0@,
                decreases j - i,
            {
                if programs[i].0 == programs[j].0 {
                    return Err(Error::Config);
                }
                i += 1;
            }
            j += 1;
        }
        assert(programs@.take(j as int) == programs@);
        Ok(Config { interval, programs })
    }

    /// Whether the selection of every program fits a machine with `count`
    /// complexes.
    pub open spec fn fits(self, count: int) -> bool {
        forall|i: int|
            0 <= i < self.programs@.len() ==> (#[trigger] self.programs@[i]).1.fits(count)
    }

    /// Checks the selection of every program against the number of complexes
    /// of the machine.
    pub fn validate(&self, count: usize) -> (r: Result<(), Error>)
        ensures
            r == if self.fits(count as int) {
                Ok::<(), Error>(())
            } else {
                Err::<(), Error>(Error::Config)
            },
    {
        let mut i: usize = 0;
        while i < self.programs.len()
            invariant
                i <= self.programs@.len(),
                forall|k: int| 0 <= k < i ==> (#[trigger] self.programs@[k]).1.fits(count as int),
            decreases self.programs@.len() - i,
        {
            match self.programs[i].1.validate(count) {
                Ok(()) => {},
                Err(e) => {
                    return Err(e);
                },
            }
            i += 1;
        }
        Ok(())
    }

    /// The selection for the program `name`, none where the configuration
    /// does not name the program: a match is one of the whole name, letter
    /// for letter.
    pub fn preference(&self, name: &str) -> (r: Option<&CcxPreference>)
        ensures
            match r {
                Some(preference) => self.selection(name@) == Some(*preference),
                None => self.selection(name@) is None,
            },
    {
        let wanted = name.to_owned();
        let mut i: usize = 0;
        assert(self.programs@.skip(0) == self.programs@);
        while i < self.programs.len()
            invariant
                i <= self.programs@.len(),
                wanted@ == name@,
                self.selection(name@) == lookup(self.programs@.skip(i as int), name@),
            decreases self.programs@.len() - i,
        {
            assert(self.programs@.skip(i as int).drop_first() == self.programs@.skip(i + 1));
            if self.programs[i].0 == wanted {
                return Some(&self.programs[i].1);
            }
            i += 1;
        }
        None
    }

    /// The milliseconds to wait between two scans for processes.
    pub fn interval_millis(&self) -> (r: u64)
        ensures
            r == self.interval_or_default(),
    {
        match self.interval {
            Some(millis) => millis as u64,
            None => DEFAULT_INTERVAL,
        }
    }
}

/// A configuration that names no program twice holds for each of its
/// programs the selection that stands beside its name.
pub proof fn lemma_selection_of_entry(config: Config, at: int)
    requires
        config.well_formed(),
        0 <= at < config.programs@.len(),
    ensures
        config.selection(config.programs@[at].0@) == Some(config.programs@[at].1),
{
    lemma_lookup_entry(config.programs@, at);
}

/// A configuration has a selection for exactly the programs that it names.
pub proof fn lemma_selection_of_name(config: Config, name: Seq<char>)
    ensures
        config.selection(name) is Some <==> exists|at: int|
            0 <= at < config.programs@.len() && (#[trigger] config.programs@[at]).0@ == name,
{
    lemma_lookup_name(config.programs@, name);
}

proof fn lemma_lookup_entry(programs: Seq<(String, CcxPreference)>, at: int)
    requires
        distinct_names(programs),
        0 <= at < programs.len(),
    ensures
        lookup(programs, programs[at].0@) == Some(programs[at].1),
    decreases programs.len(),
{
    if at > 0 {
        let rest = programs.drop_first();
        assert(programs[0].0@ != programs[at].0@);
        assert forall|i: int, j: int| 0 <= i < j < rest.len() implies (#[trigger] rest[i]).0@ != (
        #[trigger] rest[j]).0@ by {
            assert(rest[i] == programs[i + 1] && rest[j] == programs[j + 1]);
        }
        assert(rest[at - 1] == programs[at]);
        lemma_lookup_entry(rest, at - 1);
    }
}

proof fn lemma_lookup_name(programs: Seq<(String, CcxPreference)>, name: Seq<char>)
    ensures
        lookup(programs, name) is Some <==> exists|at: int|
            0 <= at < programs.len() && (#[trigger] programs[at]).0@ == name,
    decreases programs.len(),
{
    if programs.len() > 0 {
        let rest = programs.drop_first();
        lemma_lookup_name(rest, name);
        if programs[0].0@ != name {
            if lookup(rest, name) is Some {
                let at = choose|at: int| 0 <= at < rest.len() && (#[trigger] rest[at]).0@ == name;
                assert(programs[at + 1].0@ == name);
            }
            if exists|at: int| 0 <= at < programs.len() && (#[trigger] programs[at]).0@ == name {
                let at = choose|at: int|
                    0 <= at < programs.len() && (#[trigger] programs[at]).0@ == name;
                assert(rest[at - 1].0@ == name);
            }
        }
    }
}

} // verus!
