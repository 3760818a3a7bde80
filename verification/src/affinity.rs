//! Restricting a process to the cores of a selection, and only where its
//! affinity is not that already.

use crate::ccx::Ccx;
use crate::config::{CcxPreference, Config};
use crate::error::Error;
use crate::sched::{affinity_of, cpuset_cores, cpuset_eq, failure_of, restrict_to, Failure};
use crate::watch::linux::Process;
use nix::sched::CpuSet;
use vstd::prelude::*;

verus! {

/// What comes of restricting a process whose affinity is `current` to
/// `target`: whether its affinity is changed, and its affinity afterwards. An
/// affinity that is the target already is left alone.
pub open spec fn applied<T>(current: T, target: T) -> (bool, T) {
    if current == target {
        (false, current)
    } else {
        (true, target)
    }
}

/// A process whose affinity is the target already is not changed.
pub proof fn lemma_equal_is_kept<T>(current: T, target: T)
    requires
        current == target,
    ensures
        applied(current, target) == (false, current),
{
}

/// Restricting a process a second time to the same target changes nothing,
/// whatever its affinity was at first.
pub proof fn lemma_settled<T>(current: T, target: T)
    ensures
        applied(current, target).1 == target,
        applied(applied(current, target).1, target) == (false, target),
{
}

/// Of two restrictions in a row of a process whose affinity is not the
/// target, the first changes its affinity and the second does not.
pub proof fn lemma_twice<T>(current: T, target: T)
    requires
        current != target,
    ensures
        applied(current, target).0,
        !applied(applied(current, target).1, target).0,
{
}

/// The mask to give to a process whose mask is `current`, so that it runs on
/// the processors of `target`: none where it does so already.
pub fn mask_change(current: u64, target: u64) -> (r: Option<u64>)
    ensures
        r == if applied(current, target).0 {
            Some(applied(current, target).1)
        } else {
            None
        },
{
    if current == target {
        None
    } else {
        Some(target)
    }
}

/// The set to give to a process whose set of cores is `current`, so that it
/// runs on the cores of `target`: none where it does so already.
pub fn set_change(current: &CpuSet, target: CpuSet) -> (r: Option<CpuSet>)
    ensures
        match r {
            Some(set) => applied(cpuset_cores(*current), cpuset_cores(target)).0 && cpuset_cores(set)
                == applied(cpuset_cores(*current), cpuset_cores(target)).1,
            None => !applied(cpuset_cores(*current), cpuset_cores(target)).0,
        },
{
    if cpuset_eq(current, &target) {
        None
    } else {
        Some(target)
    }
}

/// What to do with a process whose mask is `current`, for it to run on the
/// complexes that `preference` names: the mask to give it, or none where it
/// runs on them already. A selection that names a place where `ccxes` has no
/// complex is refused.
pub fn affinity_change(preference: &CcxPreference, ccxes: &[Ccx], current: u64) -> (r: Result<
    Option<u64>,
    Error,
>)
    ensures
        r == if !preference.fits(ccxes@.len() as int) {
            Err::<Option<u64>, Error>(Error::Config)
        } else if applied(current, preference.target_mask(ccxes@)).0 {
            Ok::<Option<u64>, Error>(Some(preference.target_mask(ccxes@)))
        } else {
            Ok::<Option<u64>, Error>(None)
        },
{
    match preference.affinity(ccxes) {
        Ok(target) => Ok(mask_change(current, target)),
        Err(e) => Err(e),
    }
}

/// The error that a failed call of the operating system comes to: a call
/// that was not permitted is a lack of permission, a process that is not
/// there is a race with its exit, anything else is a failure to read.
pub open spec fn failure_as_error(failure: Failure) -> Error {
    match failure {
        Failure::NotPermitted => Error::Permission,
        Failure::NoSuchProcess => Error::Race,
        Failure::Other => Error::Io,
    }
}

/// Names the error that a failed call of the operating system comes to.
pub fn error_of(failure: Failure) -> (e: Error)
    ensures
        e == failure_as_error(failure),
{
    match failure {
        Failure::NotPermitted => Error::Permission,
        Failure::NoSuchProcess => Error::Race,
        Failure::Other => Error::Io,
    }
}

/// Restricts `process` to the cores of the complexes that `preference`
/// names, and says whether its affinity was changed.
///
/// The set of cores is worked out first, and a selection that does not fit
/// `ccxes` or the set is refused before the process is touched. Then the
/// affinity of the process is read, and [`set_change`] decides whether a new
/// one is set. What the operating system answers is not known beforehand: a
/// failure of either call ends the attempt with the error that [`error_of`]
/// names.
pub fn set_affinity(process: &Process, preference: &CcxPreference, ccxes: &[Ccx]) -> (r: Result<
    bool,
    Error,
>)
    ensures
        r == Err::<bool, Error>(Error::Config) <==> !(preference.fits(ccxes@.len() as int)
            && preference.fits_cpuset(ccxes@)),
        r matches Err(e) ==> e != Error::Parse,
{
    let target = match preference.cpuset(ccxes) {
        Ok(target) => target,
        Err(e) => {
            return Err(e);
        },
    };
    let current = match affinity_of(process.pid) {
        Ok(current) => current,
        Err(errno) => {
            return Err(error_of(failure_of(errno)));
        },
    };
    match set_change(&current, target) {
        None => Ok(false),
        Some(set) => match restrict_to(process.pid, &set) {
            Ok(()) => Ok(true),
            Err(errno) => Err(error_of(failure_of(errno))),
        },
    }
}

/// What became of one process that was found.
#[derive(Clone, Copy, Debug, PartialEq, Eq, Structural)]
pub enum Outcome {
    /// The configuration does not name the program: the process was left
    /// alone.
    Untouched,
    /// The process ran on the cores of its selection already.
    Unchanged,
    /// The process was restricted to the cores of its selection.
    Pinned,
    /// The attempt failed.
    Failed(Error),
}

impl Outcome {
    /// Whether a loop over the processes that are found has to end after
    /// this outcome: it goes on after a failure that concerns one process
    /// only.
    pub open spec fn fatal(self) -> bool {
        self matches Outcome::Failed(e) && !e.recoverable()
    }

    /// Tells an outcome that ends the run from one after which it goes on.
    pub fn is_fatal(&self) -> (r: bool)
        ensures
            r == self.fatal(),
    {
        match self {
            Outcome::Failed(e) => !e.is_recoverable(),
            _ => false,
        }
    }
}

/// Looks up the selection for the program of `process` and, where there is
/// one, restricts the process to it. A process whose program the
/// configuration does not name is not touched.
pub fn pin(process: &Process, config: &Config, ccxes: &[Ccx]) -> (r: Outcome)
    ensures
        r is Untouched <==> config.selection(process.name@) is None,
        r == Outcome::Failed(Error::Config) <==> (config.selection(process.name@) matches Some(
            preference,
        ) && !(preference.fits(ccxes@.len() as int) && preference.fits_cpuset(ccxes@))),
        r != Outcome::Failed(Error::Parse),
{
    match config.preference(process.name.as_str()) {
        None => Outcome::Untouched,
        Some(preference) => match set_affinity(process, preference, ccxes) {
            Ok(true) => Outcome::Pinned,
            Ok(false) => Outcome::Unchanged,
            Err(e) => Outcome::Failed(e),
        },
    }
}

} // verus!
