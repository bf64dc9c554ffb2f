//! The values that the reconciler reads and hands out.
use vstd::prelude::*;
use crate::text::{clone_strings, strs};

verus! {

/// Where workloads live on this host, and the host facts that every
/// workload's environment carries.
pub struct SideConfig {
    /// Private directory searched first for a workload's executable.
    pub side_bin_path: String,
    /// Root of the sysloads' scratch directories.
    pub sys_scr_path: String,
    /// Root of the sideloads' scratch directories.
    pub side_scr_path: String,
    /// Directory watched by the sideloader daemon for job files.
    pub sideloader_daemon_jobs_path: String,
    /// Executable of the memory balloon.
    pub balloon_bin: String,
    /// The scratch I/O device, and its major and minor numbers.
    pub scr_dev: String,
    pub scr_devnr: (u32, u32),
    pub nr_cpus: u64,
    pub total_memory: u64,
    pub total_swap: u64,
    pub rotational_swap: bool,
}

/// The modeled I/O bandwidth, in bytes per second.
pub struct IoModel {
    pub rbps: u64,
    pub wbps: u64,
}

/// A catalog entry: `args[0]` names the executable, the rest are its
/// arguments.
pub struct SideloadSpec {
    pub args: Vec<String>,
    pub frozen_exp: u32,
}

impl SideloadSpec {
    pub fn clone_spec(&self) -> (r: SideloadSpec)
        ensures
            strs(r.args@) == strs(self.args@),
            r.frozen_exp == self.frozen_exp,
    {
        SideloadSpec { args: clone_strings(&self.args), frozen_exp: self.frozen_exp }
    }
}

/// The catalog: entries by id, each id once (see `ids_unique`).
pub struct SideloadDefs {
    pub defs: Vec<(String, SideloadSpec)>,
}

/// No id twice in a catalog, as in a map from ids.
pub open spec fn ids_unique(defs: Seq<(String, SideloadSpec)>) -> bool {
    forall|i: int, j: int| 0 <= i < j < defs.len() ==> defs[i].0@ != defs[j].0@
}

/// The first index at or after `from` whose id is `id`, if any.
pub open spec fn find_def_from(defs: Seq<(String, SideloadSpec)>, id: Seq<char>, from: int) -> Option<int>
    decreases defs.len() - from,
{
    if from < 0 || from >= defs.len() {
        None
    } else if defs[from].0@ == id {
        Some(from)
    } else {
        find_def_from(defs, id, from + 1)
    }
}

pub open spec fn find_def(defs: Seq<(String, SideloadSpec)>, id: Seq<char>) -> Option<int> {
    find_def_from(defs, id, 0)
}

/// Why a workload could not be made active.
#[derive(Debug)]
pub enum SideError {
    /// The name holds something other than ASCII letters, digits, `_`, `-`.
    InvalidName(String),
    /// The catalog has no entry of this id.
    UnknownId(String),
    /// The catalog entry of this id has no command.
    NoCommand(String),
    /// The executable was found neither in the private directory nor on the
    /// search path.
    UnresolvedBinary(String),
    /// The scratch directory of this workload could not be created.
    ScratchDir(String),
    /// The job file at this path could not be written.
    JobFile(String),
    /// The service unit of this name could not be set up or started.
    Unit(String),
    /// The status of the service unit of this name could not be refreshed.
    Refresh(String),
}

/// A transient service unit to create and start.
pub struct UnitRequest {
    pub name: String,
    pub args: Vec<String>,
    pub envs: Vec<String>,
    /// The file-creation mask, when one is set.
    pub umask: Option<u32>,
    pub slice: String,
    /// The working directory, when one is set.
    pub working_dir: Option<String>,
    /// `MemorySwapMax` for the unit, when one is set.
    pub memory_swap_max: Option<u64>,
}

/// One job of a sideloader job file.
pub struct SideloaderJob {
    pub id: String,
    pub args: Vec<String>,
    pub envs: Vec<String>,
    pub frozen_expiration: u32,
    pub working_dir: String,
}

/// The whole content of a sideloader job file.
pub struct SideloaderJobs {
    pub sideloader_jobs: Vec<SideloaderJob>,
}

/// The live state of a service unit.
#[derive(PartialEq, Eq, Structural, Clone, Copy, Debug)]
pub enum UnitState {
    Running,
    Exited,
    Failed,
    Other,
}

/// A service unit's name and refreshed state.
pub struct SvcReport {
    pub name: String,
    pub state: UnitState,
}

pub struct SysloadReport {
    pub svc: SvcReport,
}

pub struct SideloadReport {
    pub svc: SvcReport,
}

} // verus!
