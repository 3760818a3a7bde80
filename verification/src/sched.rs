//! The operating system's set of cores and the two calls that read and
//! restrict the cores a process may run on.
//!
//! Nothing in this file is proved: each item states what the `nix` crate does.

use nix::errno::Errno;
use nix::sched::CpuSet;
use nix::unistd::Pid;
use vstd::prelude::*;

verus! {

/// The number of cores a [`CpuSet`] has room for: `CpuSet::count()`, the bits
/// of the operating system's `cpu_set_t`, which is 128 bytes wide on Linux.
pub const CPU_SET_CAPACITY: usize = 1024;

/// `nix::sched::CpuSet`, a fixed-width bit set of core indices.
#[verifier::external_type_specification]
#[verifier::external_body]
pub struct ExCpuSet(CpuSet);

/// `nix::errno::Errno`, the error code of a failed system call.
#[verifier::external_type_specification]
#[verifier::external_body]
pub struct ExErrno(Errno);

/// The members of a [`CpuSet`]: the core indices for which `CpuSet::is_set`
/// answers that they are set.
pub uninterp spec fn cpuset_cores(set: CpuSet) -> Set<int>;

/// What went wrong in a call of the operating system, as far as this crate
/// tells failures apart.
#[derive(Clone, Copy, Debug, PartialEq, Eq, Structural)]
pub enum Failure {
    /// `EPERM`: the caller lacks the right to do this.
    NotPermitted,
    /// `ESRCH`: there is no process with that id.
    NoSuchProcess,
    /// Any other code.
    Other,
}

/// `CpuSet::new`: a set with no member.
#[verifier::external_body]
pub(crate) fn cpuset_new() -> (set: CpuSet)
    ensures
        cpuset_cores(set) == Set::<int>::empty(),
{
    CpuSet::new()
}

/// `CpuSet::set`: adds `core` to the set and succeeds where `core` is below
/// [`CPU_SET_CAPACITY`]; fails and leaves the set as it was otherwise.
#[verifier::external_body]
pub(crate) fn cpuset_insert(set: &mut CpuSet, core: usize) -> (r: Result<(), Errno>)
    ensures
        r is Ok <==> core < CPU_SET_CAPACITY,
        r is Ok ==> cpuset_cores(*final(set)) == cpuset_cores(*old(set)).insert(core as int),
        r is Err ==> cpuset_cores(*final(set)) == cpuset_cores(*old(set)),
{
    set.set(core)
}

/// `==` on `CpuSet`, which compares the bits of the two sets: they are equal
/// exactly if they have the same members.
#[verifier::external_body]
pub(crate) fn cpuset_eq(a: &CpuSet, b: &CpuSet) -> (r: bool)
    ensures
        r == (cpuset_cores(*a) == cpuset_cores(*b)),
{
    a == b
}

/// `nix::sched::sched_getaffinity`: the cores the process may run on at the
/// moment of the call, or why the operating system does not tell. Nothing is
/// known of the answer beforehand.
#[verifier::external_body]
pub(crate) fn affinity_of(pid: i32) -> (r: Result<CpuSet, Errno>)
{
    nix::sched::sched_getaffinity(Pid::from_raw(pid))
}

/// `nix::sched::sched_setaffinity`: asks the operating system to let the
/// process run on the cores of `set` only. Nothing is known of the answer
/// beforehand.
#[verifier::external_body]
pub(crate) fn restrict_to(pid: i32, set: &CpuSet) -> (r: Result<(), Errno>)
{
    nix::sched::sched_setaffinity(Pid::from_raw(pid), set)
}

/// Tells the variants of `nix::errno::Errno` apart that this crate treats
/// differently. Nothing is known of the code beforehand.
#[verifier::external_body]
pub(crate) fn failure_of(errno: Errno) -> (r: Failure)
{
    match errno {
        Errno::EPERM => Failure::NotPermitted,
        Errno::ESRCH => Failure::NoSuchProcess,
        _ => Failure::Other,
    }
}

} // verus!
