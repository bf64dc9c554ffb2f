//! The host's side effects, and a record of each one that the library asks
//! for, with what it gave back.
use vstd::prelude::*;
use crate::model::{SideloaderJobs, UnitRequest, UnitState};
use crate::text::strs;

verus! {
/// The file-creation mask of the units this library starts.
pub const SIDE_UMASK: u32 = 0o002;

/// One release of a resource that a workload held. The host performs each
/// and reports failures only by logging them.
pub enum TeardownStep {
    /// Delete this file.
    RemoveFile(String),
    /// Stop the externally managed unit of this name and reset its state.
    StopAndReset(String),
    /// Let go of the in-process handle of the transient unit of this name.
    ReleaseUnit(String),
    /// Remove this directory recursively, retrying while it is transiently
    /// not empty, for a bounded time.
    PurgeDir(String),
}

/// The side effects that reconciliation needs from the host. Nothing is
/// assumed of what they return: every outcome is handled.
pub trait SideHost {
    /// The path of executable `bin`, searched in `dir` and then on the
    /// executable search path.
    fn find_bin(&mut self, bin: &str, dir: &str) -> Option<String>;

    /// Creates directory `path` and its parents; whether it now exists.
    fn create_dir_all(&mut self, path: &str) -> bool;

    /// Creates the transient unit `req` and starts it: `None` when the unit
    /// could not be created, else whether it started.
    fn start_transient(&mut self, req: &UnitRequest) -> Option<bool>;

    /// Publishes `jobs` as the whole content of the file at `path`.
    fn save_jobs(&mut self, path: &str, jobs: &SideloaderJobs) -> bool;

    /// Takes a handle to the externally managed unit `svc`.
    fn attach_unit(&mut self, svc: &str) -> bool;

    /// Performs `step`.
    fn teardown(&mut self, step: &TeardownStep);

    /// Refreshes the unit `svc` and gives its state.
    fn refresh_unit(&mut self, svc: &str) -> Option<UnitState>;
}

/// A unit request as a value of the contracts.
pub struct UnitView {
    pub name: Seq<char>,
    pub args: Seq<Seq<char>>,
    pub envs: Seq<Seq<char>>,
    pub umask: Option<u32>,
    pub slice: Seq<char>,
    pub working_dir: Option<Seq<char>>,
    pub memory_swap_max: Option<u64>,
}

/// A sideloader job as a value of the contracts.
pub struct JobView {
    pub id: Seq<char>,
    pub args: Seq<Seq<char>>,
    pub envs: Seq<Seq<char>>,
    pub frozen_expiration: u32,
    pub working_dir: Seq<char>,
}

pub open spec fn opt_view(o: Option<String>) -> Option<Seq<char>> {
    match o {
        Some(s) => Some(s@),
        None => None,
    }
}

pub open spec fn unit_view(r: UnitRequest) -> UnitView {
    UnitView {
        name: r.name@,
        args: strs(r.args@),
        envs: strs(r.envs@),
        umask: r.umask,
        slice: r.slice@,
        working_dir: opt_view(r.working_dir),
        memory_swap_max: r.memory_swap_max,
    }
}

pub open spec fn jobs_view(j: SideloaderJobs) -> Seq<JobView> {
    j.sideloader_jobs@.map_values(|x: crate::model::SideloaderJob| JobView {
        id: x.id@,
        args: strs(x.args@),
        envs: strs(x.envs@),
        frozen_expiration: x.frozen_expiration,
        working_dir: x.working_dir@,
    })
}

/// One side effect asked of the host, with its outcome.
pub enum HostOp {
    FindBin(Seq<char>, Seq<char>, Option<Seq<char>>),
    CreateDir(Seq<char>, bool),
    StartTransient(UnitView, Option<bool>),
    SaveJobs(Seq<char>, Seq<JobView>, bool),
    AttachUnit(Seq<char>, bool),
    RemoveFile(Seq<char>),
    StopAndReset(Seq<char>),
    ReleaseUnit(Seq<char>),
    PurgeDir(Seq<char>),
    Refresh(Seq<char>, Option<UnitState>),
}

pub open spec fn step_op(s: TeardownStep) -> HostOp {
    match s {
        TeardownStep::RemoveFile(p) => HostOp::RemoveFile(p@),
        TeardownStep::StopAndReset(n) => HostOp::StopAndReset(n@),
        TeardownStep::ReleaseUnit(n) => HostOp::ReleaseUnit(n@),
        TeardownStep::PurgeDir(p) => HostOp::PurgeDir(p@),
    }
}

/// A host, with the record of what was asked of it through this value.
pub struct Host<H: SideHost> {
    pub inner: H,
    ops: Ghost<Seq<HostOp>>,
}

impl<H: SideHost> Host<H> {
    /// What was asked of the host so far, in order.
    pub closed spec fn ops(&self) -> Seq<HostOp> {
        self.ops@
    }

    pub fn new(inner: H) -> (r: Host<H>)
        ensures
            r.ops() == Seq::<HostOp>::empty(),
    {
        Host { inner, ops: Ghost(Seq::empty()) }
    }

    pub fn find_bin(&mut self, bin: &str, dir: &str) -> (r: Option<String>)
        ensures
            final(self).ops() == old(self).ops().push(HostOp::FindBin(bin@, dir@, opt_view(r))),
    {
        let r = self.inner.find_bin(bin, dir);
        proof { self.ops@ = self.ops@.push(HostOp::FindBin(bin@, dir@, opt_view(r))); }
        r
    }

    pub fn create_dir_all(&mut self, path: &str) -> (r: bool)
        ensures
            final(self).ops() == old(self).ops().push(HostOp::CreateDir(path@, r)),
    {
        let r = self.inner.create_dir_all(path);
        proof { self.ops@ = self.ops@.push(HostOp::CreateDir(path@, r)); }
        r
    }

    pub fn start_transient(&mut self, req: &UnitRequest) -> (r: Option<bool>)
        ensures
            final(self).ops() == old(self).ops().push(HostOp::StartTransient(unit_view(*req), r)),
    {
        let r = self.inner.start_transient(req);
        proof { self.ops@ = self.ops@.push(HostOp::StartTransient(unit_view(*req), r)); }
        r
    }

    pub fn save_jobs(&mut self, path: &str, jobs: &SideloaderJobs) -> (r: bool)
        ensures
            final(self).ops() == old(self).ops().push(HostOp::SaveJobs(path@, jobs_view(*jobs), r)),
    {
        let r = self.inner.save_jobs(path, jobs);
        proof { self.ops@ = self.ops@.push(HostOp::SaveJobs(path@, jobs_view(*jobs), r)); }
        r
    }

    pub fn attach_unit(&mut self, svc: &str) -> (r: bool)
        ensures
            final(self).ops() == old(self).ops().push(HostOp::AttachUnit(svc@, r)),
    {
        let r = self.inner.attach_unit(svc);
        proof { self.ops@ = self.ops@.push(HostOp::AttachUnit(svc@, r)); }
        r
    }

    pub fn teardown(&mut self, step: &TeardownStep)
        ensures
            final(self).ops() == old(self).ops().push(step_op(*step)),
    {
        self.inner.teardown(step);
        proof { self.ops@ = self.ops@.push(step_op(*step)); }
    }

    pub fn refresh_unit(&mut self, svc: &str) -> (r: Option<UnitState>)
        ensures
            final(self).ops() == old(self).ops().push(HostOp::Refresh(svc@, r)),
    {
        let r = self.inner.refresh_unit(svc);
        proof { self.ops@ = self.ops@.push(HostOp::Refresh(svc@, r)); }
        r
    }
}

} // verus!
