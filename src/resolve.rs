//! Checking a workload request against the catalog, and what every workload
//! is handed: unit names, paths and its environment.
use vstd::prelude::*;
use vstd::string::*;
use crate::model::{find_def, find_def_from, IoModel, SideConfig, SideError, SideloadDefs, SideloadSpec};
use crate::text::{dec_str, decimal, is_valid_name, join2, join3, strs, valid_name};

verus! {

pub const SYSLOAD_SVC_PREFIX: &'static str = "rd-sysload-";

pub const SIDELOAD_SVC_PREFIX: &'static str = "rd-sideload-";

/// The resource slice that workloads run in.
pub const SYS_SLICE: &'static str = "system.slice";

pub const SVC_SUFFIX: &'static str = ".service";

pub const JOB_SUFFIX: &'static str = ".json";

pub open spec fn svc_name_of(prefix: Seq<char>, name: Seq<char>) -> Seq<char> {
    prefix + name + SVC_SUFFIX@
}

/// `<dir>/<name>`: a workload's scratch directory under its kind's root.
pub open spec fn scr_path_of(root: Seq<char>, name: Seq<char>) -> Seq<char> {
    root + "/"@ + name
}

/// `<dir>/<name>.json`: a sideload's job file.
pub open spec fn job_path_of(dir: Seq<char>, name: Seq<char>) -> Seq<char> {
    dir + "/"@ + name + JOB_SUFFIX@
}

pub fn sysload_svc_name(name: &str) -> (r: String)
    ensures
        r@ == svc_name_of(SYSLOAD_SVC_PREFIX@, name@),
{
    join3(SYSLOAD_SVC_PREFIX, name, SVC_SUFFIX)
}

pub fn sideload_svc_name(name: &str) -> (r: String)
    ensures
        r@ == svc_name_of(SIDELOAD_SVC_PREFIX@, name@),
{
    join3(SIDELOAD_SVC_PREFIX, name, SVC_SUFFIX)
}

pub fn scr_path(root: &str, name: &str) -> (r: String)
    ensures
        r@ == scr_path_of(root@, name@),
{
    join3(root, "/", name)
}

pub fn job_path(dir: &str, name: &str) -> (r: String)
    ensures
        r@ == job_path_of(dir@, name@),
{
    let mut s = join3(dir, "/", name);
    s.append(JOB_SUFFIX);
    s
}

/// Whether `name` and catalog id `id` pass validation and lookup: the name
/// is valid, the id is in the catalog, and its entry has a command.
pub open spec fn lookup_ok(name: Seq<char>, id: Seq<char>, defs: Seq<(String, SideloadSpec)>) -> bool {
    is_valid_name(name) && find_def(defs, id) is Some && defs[find_def(defs, id)->0].1.args.len() > 0
}

/// The error for `name` and `id` when they do not pass: the first check
/// that fails.
pub open spec fn lookup_error(e: SideError, name: Seq<char>, id: Seq<char>, defs: Seq<(String, SideloadSpec)>) -> bool {
    if !is_valid_name(name) {
        e matches SideError::InvalidName(n) && n@ == name
    } else if find_def(defs, id) is None {
        e matches SideError::UnknownId(i) && i@ == id
    } else {
        e matches SideError::NoCommand(i) && i@ == id
    }
}

/// Checks `name`, looks `id` up in `defs` and checks that the entry has a
/// command. The entry comes back as it is in the catalog: its executable is
/// not resolved yet.
pub fn verify_and_lookup_svc(name: &str, id: &String, defs: &SideloadDefs) -> (r: Result<SideloadSpec, SideError>)
    ensures
        r is Ok <==> lookup_ok(name@, id@, defs.defs@),
        r matches Ok(spec) ==> {
            let k = find_def(defs.defs@, id@)->0;
            strs(spec.args@) == strs(defs.defs@[k].1.args@) && spec.frozen_exp == defs.defs@[k].1.frozen_exp
        },
        r matches Err(e) ==> lookup_error(e, name@, id@, defs.defs@),
{
    if !valid_name(name) {
        return Err(SideError::InvalidName(String::from_str(name)));
    }
    let mut i: usize = 0;
    while i < defs.defs.len()
        invariant
            i <= defs.defs.len(),
            is_valid_name(name@),
            find_def(defs.defs@, id@) == find_def_from(defs.defs@, id@, i as int),
        decreases defs.defs.len() - i,
    {
        if defs.defs[i].0 == *id {
            assert(find_def_from(defs.defs@, id@, i as int) == Some(i as int));
            let spec = defs.defs[i].1.clone_spec();
            assert(strs(spec.args@).len() == spec.args@.len());
            assert(strs(defs.defs@[i as int].1.args@).len() == defs.defs@[i as int].1.args@.len());
            if spec.args.len() < 1 {
                return Err(SideError::NoCommand(id.clone()));
            }
            return Ok(spec);
        }
        i += 1;
    }
    Err(SideError::UnknownId(id.clone()))
}

/// Puts the resolved path of the executable in place of `args[0]`; `None`
/// when the executable was not found.
pub fn resolve_binary(spec: SideloadSpec, found: Option<String>) -> (r: Result<SideloadSpec, SideError>)
    requires
        spec.args.len() > 0,
    ensures
        found is None <==> r is Err,
        r matches Err(e) ==> (e matches SideError::UnresolvedBinary(b) && b@ == spec.args@[0]@),
        r matches Ok(s) ==> strs(s.args@) == strs(spec.args@).update(0, found->0@)
            && s.frozen_exp == spec.frozen_exp,
{
    match found {
        None => Err(SideError::UnresolvedBinary(spec.args[0].clone())),
        Some(path) => {
            let mut args = spec.args;
            let ghost before = args@;
            args.set(0, path);
            assert(strs(args@) =~= strs(before).update(0, found->0@));
            Ok(SideloadSpec { args, frozen_exp: spec.frozen_exp })
        },
    }
}

pub open spec fn bool_digit(b: bool) -> Seq<char> {
    if b { "1"@ } else { "0"@ }
}

/// The environment every workload gets, in this order.
pub open spec fn envs_of(cfg: &SideConfig, io: &IoModel) -> Seq<Seq<char>> {
    seq![
        "NR_CPUS="@ + dec_str(cfg.nr_cpus as nat),
        "TOTAL_MEMORY="@ + dec_str(cfg.total_memory as nat),
        "TOTAL_SWAP="@ + dec_str(cfg.total_swap as nat),
        "ROTATIONAL_SWAP="@ + bool_digit(cfg.rotational_swap),
        "IO_DEV="@ + cfg.scr_dev@,
        "IO_DEVNR="@ + dec_str(cfg.scr_devnr.0 as nat) + ":"@ + dec_str(cfg.scr_devnr.1 as nat),
        "IO_RBPS="@ + dec_str(io.rbps as nat),
        "IO_WBPS="@ + dec_str(io.wbps as nat),
    ]
}

/// The `KEY=VALUE` environment of a workload made now.
pub fn envs(cfg: &SideConfig, io: &IoModel) -> (r: Vec<String>)
    ensures
        strs(r@) == envs_of(cfg, io),
{
    let rot = if cfg.rotational_swap { "1" } else { "0" };
    let mut devnr = join3("IO_DEVNR=", decimal(cfg.scr_devnr.0 as u64).as_str(), ":");
    devnr.append(decimal(cfg.scr_devnr.1 as u64).as_str());
    let v = vec![
        join2("NR_CPUS=", decimal(cfg.nr_cpus).as_str()),
        join2("TOTAL_MEMORY=", decimal(cfg.total_memory).as_str()),
        join2("TOTAL_SWAP=", decimal(cfg.total_swap).as_str()),
        join2("ROTATIONAL_SWAP=", rot),
        join2("IO_DEV=", cfg.scr_dev.as_str()),
        devnr,
        join2("IO_RBPS=", decimal(io.rbps).as_str()),
        join2("IO_WBPS=", decimal(io.wbps).as_str()),
    ];
    assert(strs(v@) =~= envs_of(cfg, io));
    v
}

} // verus!
