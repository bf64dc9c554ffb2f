//! The reconciler: sysloads and sideloads made active or torn down so that
//! the active names follow the target.
use vstd::prelude::*;
use vstd::string::*;
use crate::model::{
    IoModel, SideConfig, SideError, SideloadDefs, SideloadSpec, SideloaderJob, SideloaderJobs,
    UnitRequest, UnitState, SvcReport, SysloadReport, SideloadReport,
};
use crate::resolve::{
    envs, envs_of, job_path, job_path_of, lookup_error, lookup_ok, scr_path, scr_path_of,
    sideload_svc_name, svc_name_of, sysload_svc_name, verify_and_lookup_svc, resolve_binary,
    SIDELOAD_SVC_PREFIX, SYSLOAD_SVC_PREFIX, SYS_SLICE, JOB_SUFFIX, SVC_SUFFIX,
};
use crate::model::{find_def, ids_unique};
use crate::text::{clone_strings, is_valid_name, strs};
use crate::host::{opt_view, JobView, step_op, unit_view, jobs_view, Host, HostOp, SideHost, TeardownStep, UnitView, SIDE_UMASK};

verus! {

/// A workload run as a transient unit of this process.
pub struct Sysload {
    pub name: String,
    pub scr_path: String,
    pub svc_name: String,
}

/// A workload run by the sideloader daemon from a job file.
pub struct Sideload {
    pub name: String,
    pub scr_path: String,
    pub job_path: String,
    pub svc_name: String,
}

pub open spec fn sysload_ok(cfg: SideConfig, s: Sysload) -> bool {
    is_valid_name(s.name@) && s.scr_path@ == scr_path_of(cfg.sys_scr_path@, s.name@)
        && s.svc_name@ == svc_name_of(SYSLOAD_SVC_PREFIX@, s.name@)
}

pub open spec fn sideload_ok(cfg: SideConfig, s: Sideload) -> bool {
    is_valid_name(s.name@) && s.scr_path@ == scr_path_of(cfg.side_scr_path@, s.name@)
        && s.job_path@ == job_path_of(cfg.sideloader_daemon_jobs_path@, s.name@)
        && s.svc_name@ == svc_name_of(SIDELOAD_SVC_PREFIX@, s.name@)
}

impl Sysload {
    /// What dropping the record releases, in order: the scratch directory,
    /// then the unit handle.
    pub fn teardown_steps(&self) -> (r: Vec<TeardownStep>)
        ensures
            r@.len() == 2,
            r@[0] matches TeardownStep::PurgeDir(p) && p@ == self.scr_path@,
            r@[1] matches TeardownStep::ReleaseUnit(n) && n@ == self.svc_name@,
    {
        vec![TeardownStep::PurgeDir(self.scr_path.clone()), TeardownStep::ReleaseUnit(self.svc_name.clone())]
    }

    /// Releases what the record holds.
    pub fn dispose<H: SideHost>(self, host: &mut Host<H>)
        ensures
            final(host).ops() == old(host).ops() + sysload_teardown_ops(self),
    {
        let steps = self.teardown_steps();
        perform_all(host, &steps);
        assert(steps@.map_values(|t: TeardownStep| step_op(t)) =~= sysload_teardown_ops(self));
    }
}

impl Sideload {
    /// What dropping the record releases, in order: the job file first, so
    /// that the daemon does not start the job again, then the unit, then the
    /// scratch directory.
    pub fn teardown_steps(&self) -> (r: Vec<TeardownStep>)
        ensures
            r@.len() == 3,
            r@[0] matches TeardownStep::RemoveFile(p) && p@ == self.job_path@,
            r@[1] matches TeardownStep::StopAndReset(n) && n@ == self.svc_name@,
            r@[2] matches TeardownStep::PurgeDir(p) && p@ == self.scr_path@,
    {
        vec![
            TeardownStep::RemoveFile(self.job_path.clone()),
            TeardownStep::StopAndReset(self.svc_name.clone()),
            TeardownStep::PurgeDir(self.scr_path.clone()),
        ]
    }

    /// Releases what the record holds.
    pub fn dispose<H: SideHost>(self, host: &mut Host<H>)
        ensures
            final(host).ops() == old(host).ops() + sideload_teardown_ops(self),
    {
        let steps = self.teardown_steps();
        perform_all(host, &steps);
        assert(steps@.map_values(|t: TeardownStep| step_op(t)) =~= sideload_teardown_ops(self));
    }
}

fn perform_all<H: SideHost>(host: &mut Host<H>, steps: &Vec<TeardownStep>)
    ensures
        final(host).ops() == old(host).ops() + steps@.map_values(|t: TeardownStep| step_op(t)),
{
    let mut i: usize = 0;
    while i < steps.len()
        invariant
            i <= steps.len(),
            host.ops() == old(host).ops() + steps@.subrange(0, i as int).map_values(|t: TeardownStep| step_op(t)),
        decreases steps.len() - i,
    {
        host.teardown(&steps[i]);
        i += 1;
        assert(steps@.subrange(0, i as int).map_values(|t: TeardownStep| step_op(t)) =~= steps@.subrange(0, i - 1).map_values(|t: TeardownStep| step_op(t)).push(step_op(steps@[i - 1])));
    }
    assert(steps@.subrange(0, i as int) =~= steps@);
}

/// What tearing a sysload down asks of the host, in order.
pub open spec fn sysload_teardown_ops(s: Sysload) -> Seq<HostOp> {
    seq![HostOp::PurgeDir(s.scr_path@), HostOp::ReleaseUnit(s.svc_name@)]
}

/// What tearing a sideload down asks of the host, in order: the job file
/// first, so that the daemon does not start the job again, then the unit,
/// then the scratch directory.
pub open spec fn sideload_teardown_ops(s: Sideload) -> Seq<HostOp> {
    seq![HostOp::RemoveFile(s.job_path@), HostOp::StopAndReset(s.svc_name@), HostOp::PurgeDir(s.scr_path@)]
}

/// The transient unit that runs sysload `name` from `spec`.
pub fn sysload_unit_request(cfg: &SideConfig, name: &str, scr: &String, spec: &SideloadSpec, io: &IoModel) -> (r: UnitRequest)
    ensures
        r.name@ == svc_name_of(SYSLOAD_SVC_PREFIX@, name@),
        strs(r.args@) == strs(spec.args@),
        strs(r.envs@) == envs_of(cfg, io),
        r.umask == Some(SIDE_UMASK),
        r.slice@ == SYS_SLICE@,
        r.working_dir matches Some(d) && d@ == scr@,
        r.memory_swap_max is None,
{
    UnitRequest {
        name: sysload_svc_name(name),
        args: clone_strings(&spec.args),
        envs: envs(cfg, io),
        umask: Some(SIDE_UMASK),
        slice: String::from_str(SYS_SLICE),
        working_dir: Some(scr.clone()),
        memory_swap_max: None,
    }
}

/// The job file content that hands sideload `name` to the daemon: one job.
pub fn sideload_jobs(name: &str, spec: &SideloadSpec, envs: Vec<String>, scr: &String) -> (r: SideloaderJobs)
    ensures
        r.sideloader_jobs@.len() == 1,
        r.sideloader_jobs@[0].id@ == name@,
        strs(r.sideloader_jobs@[0].args@) == strs(spec.args@),
        r.sideloader_jobs@[0].envs@ == envs@,
        r.sideloader_jobs@[0].frozen_expiration == spec.frozen_exp,
        r.sideloader_jobs@[0].working_dir@ == scr@,
{
    SideloaderJobs {
        sideloader_jobs: vec![SideloaderJob {
            id: String::from_str(name),
            args: clone_strings(&spec.args),
            envs,
            frozen_expiration: spec.frozen_exp,
            working_dir: scr.clone(),
        }],
    }
}

/// A catalog entry with its executable resolved.
pub open spec fn resolved_from(s: SideloadSpec, defs: Seq<(String, SideloadSpec)>, id: Seq<char>) -> bool {
    args_resolved_from(strs(s.args@), defs, id) && s.frozen_exp == defs[find_def(defs, id)->0].1.frozen_exp
}

/// Arguments that are the catalog entry's of `id`, but for the executable,
/// which was resolved.
pub open spec fn args_resolved_from(a: Seq<Seq<char>>, defs: Seq<(String, SideloadSpec)>, id: Seq<char>) -> bool {
    let c = defs[find_def(defs, id)->0].1;
    a.len() == c.args.len() && a.drop_first() == strs(c.args@).drop_first()
}

/// The host operations of the addition pass of `apply_sysloads` from
/// target entry `i` on, and its result `r`, when `active` holds the names
/// left active by the removal pass. Entries whose names are active are
/// skipped. For each other entry, in order: validation and lookup (no
/// operation; failure ends the pass), the executable lookup, the directory,
/// the unit's start; a failure ends the pass with its error, after taking
/// the directory back when the unit could not be created. A unit that was
/// created but did not start is no failure.
pub open spec fn sys_add_spec(post: Seq<HostOp>, cfg: SideConfig, t: Seq<(String, String)>, defs: Seq<(String, SideloadSpec)>, io: IoModel, active: Set<Seq<char>>, i: int, r: Result<(), SideError>) -> bool
    decreases t.len() - i,
{
    if i < 0 || i >= t.len() {
        post.len() == 0 && r is Ok
    } else if active.contains(t[i].0@) {
        sys_add_spec(post, cfg, t, defs, io, active, i + 1, r)
    } else if !lookup_ok(t[i].0@, t[i].1@, defs) {
        post.len() == 0 && (r matches Err(e) && lookup_error(e, t[i].0@, t[i].1@, defs))
    } else {
        let n = t[i].0@;
        let a = catalog_args(defs, t[i].1@);
        let scr = scr_path_of(cfg.sys_scr_path@, n);
        &&& post.len() >= 1
        &&& post[0] is FindBin
        &&& post[0]->FindBin_0 == a[0]
        &&& post[0]->FindBin_1 == cfg.side_bin_path@
        &&& if post[0]->FindBin_2 is None {
            post.len() == 1 && (r matches Err(e) && (e matches SideError::UnresolvedBinary(x) && x@ == a[0]))
        } else {
            let f = post[0]->FindBin_2->0;
            &&& post.len() >= 2
            &&& post[1] == HostOp::CreateDir(scr, post[1]->CreateDir_1)
            &&& if !post[1]->CreateDir_1 {
                post.len() == 2 && (r matches Err(e) && (e matches SideError::ScratchDir(x) && x@ == n))
            } else {
                &&& post.len() >= 3
                &&& post[2] == HostOp::StartTransient(sysload_unit_view(cfg, n, a.update(0, f), io), post[2]->StartTransient_1)
                &&& if post[2]->StartTransient_1 is None {
                    &&& post.len() == 4
                    &&& post[3] == HostOp::PurgeDir(scr)
                    &&& (r matches Err(e) && (e matches SideError::Unit(x) && x@ == svc_name_of(SYSLOAD_SVC_PREFIX@, n)))
                } else {
                    sys_add_spec(post.skip(3), cfg, t, defs, io, active, i + 1, r)
                }
            }
        }
    }
}

/// `pre`, the operations asked for before entry `i`, followed by any
/// valid rest of the addition pass from `i`, is a valid whole pass.
pub open spec fn sys_cont(pre: Seq<HostOp>, cfg: SideConfig, t: Seq<(String, String)>, defs: Seq<(String, SideloadSpec)>, io: IoModel, active: Set<Seq<char>>, i: int) -> bool {
    forall|rest: Seq<HostOp>, rr: Result<(), SideError>| #[trigger] sys_add_spec(rest, cfg, t, defs, io, active, i, rr)
        ==> sys_add_spec(pre + rest, cfg, t, defs, io, active, 0, rr)
}

/// The host operations of the addition pass of `apply_sideloads` from
/// target entry `i` on, and its result `r`, as `sys_add_spec` gives them for
/// sysloads. For each new entry: the executable lookup, the directory, the
/// job file, the unit handle; a failure ends the pass with its error, after
/// taking back the job file and the directory made before it. No unit is
/// started.
pub open spec fn side_add_spec(post: Seq<HostOp>, cfg: SideConfig, t: Seq<(String, String)>, defs: Seq<(String, SideloadSpec)>, io: IoModel, active: Set<Seq<char>>, i: int, r: Result<(), SideError>) -> bool
    decreases t.len() - i,
{
    if i < 0 || i >= t.len() {
        post.len() == 0 && r is Ok
    } else if active.contains(t[i].0@) {
        side_add_spec(post, cfg, t, defs, io, active, i + 1, r)
    } else if !lookup_ok(t[i].0@, t[i].1@, defs) {
        post.len() == 0 && (r matches Err(e) && lookup_error(e, t[i].0@, t[i].1@, defs))
    } else {
        let n = t[i].0@;
        let a = catalog_args(defs, t[i].1@);
        let scr = scr_path_of(cfg.side_scr_path@, n);
        let jp = job_path_of(cfg.sideloader_daemon_jobs_path@, n);
        let svc = svc_name_of(SIDELOAD_SVC_PREFIX@, n);
        &&& post.len() >= 1
        &&& post[0] is FindBin
        &&& post[0]->FindBin_0 == a[0]
        &&& post[0]->FindBin_1 == cfg.side_bin_path@
        &&& if post[0]->FindBin_2 is None {
            post.len() == 1 && (r matches Err(e) && (e matches SideError::UnresolvedBinary(x) && x@ == a[0]))
        } else {
            let f = post[0]->FindBin_2->0;
            let jobs = sideload_jobs_view(cfg, n, a.update(0, f), defs[find_def(defs, t[i].1@)->0].1.frozen_exp, io);
            &&& post.len() >= 2
            &&& post[1] == HostOp::CreateDir(scr, post[1]->CreateDir_1)
            &&& if !post[1]->CreateDir_1 {
                post.len() == 2 && (r matches Err(e) && (e matches SideError::ScratchDir(x) && x@ == n))
            } else {
                &&& post.len() >= 3
                &&& post[2] == HostOp::SaveJobs(jp, jobs, post[2]->SaveJobs_2)
                &&& if !post[2]->SaveJobs_2 {
                    &&& post.len() == 4
                    &&& post[3] == HostOp::PurgeDir(scr)
                    &&& (r matches Err(e) && (e matches SideError::JobFile(x) && x@ == jp))
                } else {
                    &&& post.len() >= 4
                    &&& post[3] == HostOp::AttachUnit(svc, post[3]->AttachUnit_1)
                    &&& if !post[3]->AttachUnit_1 {
                        &&& post.len() == 6
                        &&& post[4] == HostOp::RemoveFile(jp)
                        &&& post[5] == HostOp::PurgeDir(scr)
                        &&& (r matches Err(e) && (e matches SideError::Unit(x) && x@ == svc))
                    } else {
                        side_add_spec(post.skip(4), cfg, t, defs, io, active, i + 1, r)
                    }
                }
            }
        }
    }
}

/// `pre` followed by any valid rest of the sideload addition pass from `i`
/// is a valid whole pass.
pub open spec fn side_cont(pre: Seq<HostOp>, cfg: SideConfig, t: Seq<(String, String)>, defs: Seq<(String, SideloadSpec)>, io: IoModel, active: Set<Seq<char>>, i: int) -> bool {
    forall|rest: Seq<HostOp>, rr: Result<(), SideError>| #[trigger] side_add_spec(rest, cfg, t, defs, io, active, i, rr)
        ==> side_add_spec(pre + rest, cfg, t, defs, io, active, 0, rr)
}

/// An operation that making sideload entry `i` of the target may ask of
/// the host; only an entry that passed validation and lookup gets any, and
/// none of them starts a unit.
pub open spec fn side_entry_op(op: HostOp, cfg: SideConfig, t: Seq<(String, String)>, defs: Seq<(String, SideloadSpec)>, io: IoModel, active: Set<Seq<char>>, i: int) -> bool {
    0 <= i < t.len() && !active.contains(t[i].0@) && lookup_ok(t[i].0@, t[i].1@, defs) && match op {
        HostOp::CreateDir(p, _) => p == scr_path_of(cfg.side_scr_path@, t[i].0@),
        HostOp::SaveJobs(p, j, _) => p == job_path_of(cfg.sideloader_daemon_jobs_path@, t[i].0@) && j.len() == 1
            && j == sideload_jobs_view(cfg, t[i].0@, j[0].args, defs[find_def(defs, t[i].1@)->0].1.frozen_exp, io)
            && args_resolved_from(j[0].args, defs, t[i].1@),
        HostOp::AttachUnit(n, _) => n == svc_name_of(SIDELOAD_SVC_PREFIX@, t[i].0@),
        HostOp::RemoveFile(p) => p == job_path_of(cfg.sideloader_daemon_jobs_path@, t[i].0@),
        HostOp::PurgeDir(p) => p == scr_path_of(cfg.side_scr_path@, t[i].0@),
        _ => false,
    }
}

/// An operation that the addition pass of `apply_sideloads` may ask of the
/// host: an executable lookup in the private directory, or one of
/// `side_entry_op`.
pub open spec fn side_op_allowed(op: HostOp, cfg: SideConfig, t: Seq<(String, String)>, defs: Seq<(String, SideloadSpec)>, io: IoModel, active: Set<Seq<char>>) -> bool {
    (op matches HostOp::FindBin(_, dir, _) && dir == cfg.side_bin_path@)
        || exists|i: int| #[trigger] side_entry_op(op, cfg, t, defs, io, active, i)
}

/// An operation that making sysload entry `i` of the target may ask of the
/// host; only an entry that passed validation and lookup gets any.
pub open spec fn sys_entry_op(op: HostOp, cfg: SideConfig, t: Seq<(String, String)>, defs: Seq<(String, SideloadSpec)>, io: IoModel, active: Set<Seq<char>>, i: int) -> bool {
    0 <= i < t.len() && !active.contains(t[i].0@) && lookup_ok(t[i].0@, t[i].1@, defs) && match op {
        HostOp::CreateDir(p, _) => p == scr_path_of(cfg.sys_scr_path@, t[i].0@),
        HostOp::StartTransient(u, _) => u == sysload_unit_view(cfg, t[i].0@, u.args, io)
            && args_resolved_from(u.args, defs, t[i].1@),
        HostOp::PurgeDir(p) => p == scr_path_of(cfg.sys_scr_path@, t[i].0@),
        _ => false,
    }
}

/// An operation that the addition pass of `apply_sysloads` may ask of the
/// host: an executable lookup in the private directory, or one of
/// `sys_entry_op`.
pub open spec fn sys_op_allowed(op: HostOp, cfg: SideConfig, t: Seq<(String, String)>, defs: Seq<(String, SideloadSpec)>, io: IoModel, active: Set<Seq<char>>) -> bool {
    (op matches HostOp::FindBin(_, dir, _) && dir == cfg.side_bin_path@)
        || exists|i: int| #[trigger] sys_entry_op(op, cfg, t, defs, io, active, i)
}

/// An error that the host's side effects, not the request, caused.
pub open spec fn host_error(e: SideError) -> bool {
    e is UnresolvedBinary || e is ScratchDir || e is JobFile || e is Unit
}

/// The catalog arguments of `id`.
pub open spec fn catalog_args(defs: Seq<(String, SideloadSpec)>, id: Seq<char>) -> Seq<Seq<char>> {
    strs(defs[find_def(defs, id)->0].1.args@)
}

/// How resolving the executable of catalog entry `id` went: one lookup of
/// the catalog's executable in the private directory, found at `f` or not;
/// success exactly when it was found, with the path found in place of the
/// executable.
pub open spec fn resolve_outcome(ops: Seq<HostOp>, ops0: Seq<HostOp>, cfg: SideConfig, defs: Seq<(String, SideloadSpec)>, id: Seq<char>, f: Option<Seq<char>>, r: Result<SideloadSpec, SideError>) -> bool {
    &&& ops == ops0.push(HostOp::FindBin(catalog_args(defs, id)[0], cfg.side_bin_path@, f))
    &&& (r is Ok <==> f is Some)
    &&& (r matches Ok(s) ==> strs(s.args@) == catalog_args(defs, id).update(0, f->0)
        && s.frozen_exp == defs[find_def(defs, id)->0].1.frozen_exp)
    &&& (r matches Err(e) ==> (e matches SideError::UnresolvedBinary(b) && b@ == catalog_args(defs, id)[0]))
}

/// Validates `name`, looks `id` up and resolves the executable through the
/// host.
pub fn resolve_spec<H: SideHost>(host: &mut Host<H>, cfg: &SideConfig, name: &str, id: &String, defs: &SideloadDefs) -> (r: Result<SideloadSpec, SideError>)
    ensures
        r is Ok ==> lookup_ok(name@, id@, defs.defs@),
        r matches Ok(s) ==> resolved_from(s, defs.defs@, id@),
        r matches Err(e) ==> (lookup_ok(name@, id@, defs.defs@) ==> e is UnresolvedBinary),
        r matches Err(e) ==> (!lookup_ok(name@, id@, defs.defs@) ==> lookup_error(e, name@, id@, defs.defs@)),
        !lookup_ok(name@, id@, defs.defs@) ==> final(host).ops() == old(host).ops(),
        final(host).ops() == old(host).ops() || exists|b: Seq<char>, f: Option<Seq<char>>|
            final(host).ops() == old(host).ops().push(HostOp::FindBin(b, cfg.side_bin_path@, f)),
        lookup_ok(name@, id@, defs.defs@) ==> exists|f: Option<Seq<char>>| #[trigger] resolve_outcome(
            final(host).ops(), old(host).ops(), *cfg, defs.defs@, id@, f, r),
{
    let spec = match verify_and_lookup_svc(name, id, defs) {
        Ok(s) => s,
        Err(e) => return Err(e),
    };
    assert(strs(spec.args@).len() == spec.args@.len());
    let found = host.find_bin(spec.args[0].as_str(), cfg.side_bin_path.as_str());
    assert(host.ops() == old(host).ops().push(HostOp::FindBin(spec.args@[0]@, cfg.side_bin_path@, opt_view(found))));
    let r = resolve_binary(spec, found);
    proof {
        let c = defs.defs@[find_def(defs.defs@, id@)->0].1;
        assert(strs(spec.args@) == strs(c.args@));
        assert(resolve_outcome(host.ops(), old(host).ops(), *cfg, defs.defs@, id@, opt_view(found), r));
        if r is Ok {
            let s = r->Ok_0;
            assert(strs(s.args@).len() == s.args@.len());
            let c = defs.defs@[find_def(defs.defs@, id@)->0].1;
            assert(strs(c.args@).len() == c.args@.len());
            assert(strs(s.args@).drop_first() =~= strs(c.args@).drop_first());
        }
    }
    r
}

/// The unit that runs sysload `name`, as the contracts see it.
pub open spec fn sysload_unit_view(cfg: SideConfig, name: Seq<char>, args: Seq<Seq<char>>, io: IoModel) -> UnitView {
    UnitView {
        name: svc_name_of(SYSLOAD_SVC_PREFIX@, name),
        args: args,
        envs: envs_of(&cfg, &io),
        umask: Some(SIDE_UMASK),
        slice: SYS_SLICE@,
        working_dir: Some(scr_path_of(cfg.sys_scr_path@, name)),
        memory_swap_max: None,
    }
}

/// What making sysload `name` asks of the host, given whether its
/// directory was created (`dir_ok`) and how the start went (`started`).
pub open spec fn sysload_creation_ops(cfg: SideConfig, name: Seq<char>, args: Seq<Seq<char>>, io: IoModel, dir_ok: bool, started: Option<bool>) -> Seq<HostOp> {
    let scr = scr_path_of(cfg.sys_scr_path@, name);
    if !dir_ok {
        seq![HostOp::CreateDir(scr, false)]
    } else if started is None {
        seq![HostOp::CreateDir(scr, true), HostOp::StartTransient(sysload_unit_view(cfg, name, args, io), started), HostOp::PurgeDir(scr)]
    } else {
        seq![HostOp::CreateDir(scr, true), HostOp::StartTransient(sysload_unit_view(cfg, name, args, io), started)]
    }
}

/// The job file content of sideload `name`, as the contracts see it.
pub open spec fn sideload_jobs_view(cfg: SideConfig, name: Seq<char>, args: Seq<Seq<char>>, frozen: u32, io: IoModel) -> Seq<JobView> {
    seq![JobView {
        id: name,
        args: args,
        envs: envs_of(&cfg, &io),
        frozen_expiration: frozen,
        working_dir: scr_path_of(cfg.side_scr_path@, name),
    }]
}

/// What making sideload `name` asks of the host, given the outcomes of the
/// directory creation, the job file write and the unit handle. A failure
/// takes back what was made before it; no unit is ever started.
pub open spec fn sideload_creation_ops(cfg: SideConfig, name: Seq<char>, args: Seq<Seq<char>>, frozen: u32, io: IoModel, dir_ok: bool, saved: bool, attached: bool) -> Seq<HostOp> {
    let scr = scr_path_of(cfg.side_scr_path@, name);
    let jp = job_path_of(cfg.sideloader_daemon_jobs_path@, name);
    let jobs = sideload_jobs_view(cfg, name, args, frozen, io);
    let svc = svc_name_of(SIDELOAD_SVC_PREFIX@, name);
    if !dir_ok {
        seq![HostOp::CreateDir(scr, false)]
    } else if !saved {
        seq![HostOp::CreateDir(scr, true), HostOp::SaveJobs(jp, jobs, false), HostOp::PurgeDir(scr)]
    } else if !attached {
        seq![HostOp::CreateDir(scr, true), HostOp::SaveJobs(jp, jobs, true), HostOp::AttachUnit(svc, false),
            HostOp::RemoveFile(jp), HostOp::PurgeDir(scr)]
    } else {
        seq![HostOp::CreateDir(scr, true), HostOp::SaveJobs(jp, jobs, true), HostOp::AttachUnit(svc, true)]
    }
}

/// A sysload whose unit could not be created is an error; one whose unit
/// was created but did not start is kept.
pub fn sysload_start_result(started: Option<bool>, svc: &String) -> (r: Result<(), SideError>)
    ensures
        r is Ok <==> started is Some,
        r matches Err(e) ==> (e matches SideError::Unit(n) && n@ == svc@),
{
    match started {
        Some(_) => Ok(()),
        None => Err(SideError::Unit(svc.clone())),
    }
}

/// Makes sysload `name` from a resolved spec: its scratch directory, then
/// its unit, started. A failed start is not an error: the record is kept and
/// a later report shows the unit's state.
pub fn create_sysload<H: SideHost>(host: &mut Host<H>, cfg: &SideConfig, name: &String, spec: &SideloadSpec, io: &IoModel) -> (r: Result<Sysload, SideError>)
    requires
        is_valid_name(name@),
    ensures
        exists|dir_ok: bool, started: Option<bool>|
            final(host).ops() == old(host).ops() + sysload_creation_ops(*cfg, name@, strs(spec.args@), *io, dir_ok, started)
            && (r is Ok <==> dir_ok && started is Some)
            && (r matches Err(e) ==> (!dir_ok && (e matches SideError::ScratchDir(n) && n@ == name@))
                || (dir_ok && (e matches SideError::Unit(n) && n@ == svc_name_of(SYSLOAD_SVC_PREFIX@, name@)))),
        r matches Ok(s) ==> s.name@ == name@ && sysload_ok(*cfg, s),
{
    let scr = scr_path(cfg.sys_scr_path.as_str(), name.as_str());
    if !host.create_dir_all(scr.as_str()) {
        assert(host.ops() == old(host).ops() + sysload_creation_ops(*cfg, name@, strs(spec.args@), *io, false, None));
        return Err(SideError::ScratchDir(name.clone()));
    }
    let req = sysload_unit_request(cfg, name.as_str(), &scr, spec, io);
    let started = host.start_transient(&req);
    assert(unit_view(req) == sysload_unit_view(*cfg, name@, strs(spec.args@), *io));
    match sysload_start_result(started, &req.name) {
        Err(e) => {
            host.teardown(&TeardownStep::PurgeDir(scr));
            assert(host.ops() =~= old(host).ops() + sysload_creation_ops(*cfg, name@, strs(spec.args@), *io, true, started));
            Err(e)
        },
        Ok(()) => {
            assert(host.ops() =~= old(host).ops() + sysload_creation_ops(*cfg, name@, strs(spec.args@), *io, true, started));
            Ok(Sysload { name: name.clone(), scr_path: scr, svc_name: req.name })
        },
    }
}

/// Makes sideload `name` from a resolved spec: its scratch directory, its
/// job file, then a handle to the unit that the daemon starts.
pub fn create_sideload<H: SideHost>(host: &mut Host<H>, cfg: &SideConfig, name: &String, spec: &SideloadSpec, io: &IoModel) -> (r: Result<Sideload, SideError>)
    requires
        is_valid_name(name@),
    ensures
        exists|dir_ok: bool, saved: bool, attached: bool|
            final(host).ops() == old(host).ops() + sideload_creation_ops(*cfg, name@, strs(spec.args@), spec.frozen_exp, *io, dir_ok, saved, attached)
            && (r is Ok <==> dir_ok && saved && attached)
            && (r matches Err(e) ==> (!dir_ok && (e matches SideError::ScratchDir(n) && n@ == name@))
                || (dir_ok && !saved && (e matches SideError::JobFile(p) && p@ == job_path_of(cfg.sideloader_daemon_jobs_path@, name@)))
                || (dir_ok && saved && (e matches SideError::Unit(n) && n@ == svc_name_of(SIDELOAD_SVC_PREFIX@, name@)))),
        r matches Ok(s) ==> s.name@ == name@ && sideload_ok(*cfg, s),
{
    let ghost a = strs(spec.args@);
    let jpath = job_path(cfg.sideloader_daemon_jobs_path.as_str(), name.as_str());
    let scr = scr_path(cfg.side_scr_path.as_str(), name.as_str());
    if !host.create_dir_all(scr.as_str()) {
        assert(host.ops() =~= old(host).ops() + sideload_creation_ops(*cfg, name@, a, spec.frozen_exp, *io, false, false, false));
        return Err(SideError::ScratchDir(name.clone()));
    }
    let jobs = sideload_jobs(name.as_str(), spec, envs(cfg, io), &scr);
    assert(jobs_view(jobs) =~= sideload_jobs_view(*cfg, name@, a, spec.frozen_exp, *io));
    if !host.save_jobs(jpath.as_str(), &jobs) {
        host.teardown(&TeardownStep::PurgeDir(scr));
        assert(host.ops() =~= old(host).ops() + sideload_creation_ops(*cfg, name@, a, spec.frozen_exp, *io, true, false, false));
        return Err(SideError::JobFile(jpath));
    }
    let svc = sideload_svc_name(name.as_str());
    if !host.attach_unit(svc.as_str()) {
        host.teardown(&TeardownStep::RemoveFile(jpath));
        host.teardown(&TeardownStep::PurgeDir(scr));
        assert(host.ops() =~= old(host).ops() + sideload_creation_ops(*cfg, name@, a, spec.frozen_exp, *io, true, true, false));
        return Err(SideError::Unit(svc));
    }
    assert(host.ops() =~= old(host).ops() + sideload_creation_ops(*cfg, name@, a, spec.frozen_exp, *io, true, true, true));
    Ok(Sideload { name: name.clone(), scr_path: scr, job_path: jpath, svc_name: svc })
}

/// The names that a target maps.
pub open spec fn key_set(t: Seq<(String, String)>) -> Set<Seq<char>> {
    Set::new(|n: Seq<char>| exists|i: int| 0 <= i < t.len() && t[i].0@ == n)
}

pub open spec fn sys_names(s: Seq<Sysload>) -> Set<Seq<char>> {
    Set::new(|n: Seq<char>| exists|i: int| 0 <= i < s.len() && s[i].name@ == n)
}

pub open spec fn side_names(s: Seq<Sideload>) -> Set<Seq<char>> {
    Set::new(|n: Seq<char>| exists|i: int| 0 <= i < s.len() && s[i].name@ == n)
}

/// Every record well formed, no name twice.
pub open spec fn sys_wf(cfg: SideConfig, s: Seq<Sysload>) -> bool {
    (forall|i: int| 0 <= i < s.len() ==> sysload_ok(cfg, #[trigger] s[i]))
        && (forall|i: int, j: int| 0 <= i < j < s.len() ==> s[i].name@ != s[j].name@)
}

pub open spec fn side_wf(cfg: SideConfig, s: Seq<Sideload>) -> bool {
    (forall|i: int| 0 <= i < s.len() ==> sideload_ok(cfg, #[trigger] s[i]))
        && (forall|i: int, j: int| 0 <= i < j < s.len() ==> s[i].name@ != s[j].name@)
}

/// The records of `s` whose names `keys` lacks, in order.
pub open spec fn sys_goners(s: Seq<Sysload>, keys: Set<Seq<char>>) -> Seq<Sysload>
    decreases s.len(),
{
    if s.len() == 0 {
        seq![]
    } else if keys.contains(s.last().name@) {
        sys_goners(s.drop_last(), keys)
    } else {
        sys_goners(s.drop_last(), keys).push(s.last())
    }
}

pub open spec fn side_goners(s: Seq<Sideload>, keys: Set<Seq<char>>) -> Seq<Sideload>
    decreases s.len(),
{
    if s.len() == 0 {
        seq![]
    } else if keys.contains(s.last().name@) {
        side_goners(s.drop_last(), keys)
    } else {
        side_goners(s.drop_last(), keys).push(s.last())
    }
}

/// No name twice in a target, as in a map from names.
pub open spec fn names_unique(t: Seq<(String, String)>) -> bool {
    forall|i: int, j: int| 0 <= i < j < t.len() ==> t[i].0@ != t[j].0@
}

/// An entry of the target that is the first of its name, names no active
/// workload, and fails validation or lookup.
pub open spec fn bad_new_entry(t: Seq<(String, String)>, i: int, active: Set<Seq<char>>, defs: Seq<(String, SideloadSpec)>) -> bool {
    0 <= i < t.len() && (forall|j: int| 0 <= j < i ==> t[j].0@ != t[i].0@) && !active.contains(t[i].0@)
        && !lookup_ok(t[i].0@, t[i].1@, defs)
}

/// Whether `name` is mapped by `target`.
fn target_has(target: &Vec<(String, String)>, name: &String) -> (r: bool)
    ensures
        r == key_set(target@).contains(name@),
{
    let mut i: usize = 0;
    while i < target.len()
        invariant
            i <= target.len(),
            forall|j: int| 0 <= j < i ==> target@[j].0@ != name@,
        decreases target.len() - i,
    {
        if target[i].0 == *name {
            return true;
        }
        i += 1;
    }
    false
}

/// What tearing down each of `s`, in order, asks of the host.
pub open spec fn sys_teardown_all(s: Seq<Sysload>) -> Seq<HostOp>
    decreases s.len(),
{
    if s.len() == 0 {
        seq![]
    } else {
        sys_teardown_all(s.drop_last()) + sysload_teardown_ops(s.last())
    }
}

/// What the removal pass of `apply_sysloads` asks of the host: each
/// goner's teardown, unless a sink takes them.
pub open spec fn sys_removal_ops(tear: bool, s: Seq<Sysload>, keys: Set<Seq<char>>) -> Seq<HostOp> {
    if tear { sys_teardown_all(sys_goners(s, keys)) } else { seq![] }
}

fn dispose_sysloads<H: SideHost>(host: &mut Host<H>, v: Vec<Sysload>)
    ensures
        final(host).ops() == old(host).ops() + sys_teardown_all(v@),
{
    let ghost orig = v@;
    let mut v = v;
    let ghost mut idx: int = 0;
    while v.len() > 0
        invariant
            0 <= idx <= orig.len(),
            v@ == orig.subrange(idx, orig.len() as int),
            host.ops() == old(host).ops() + sys_teardown_all(orig.subrange(0, idx)),
        decreases v.len(),
    {
        let s = v.remove(0);
        assert(orig.subrange(0, idx + 1).drop_last() =~= orig.subrange(0, idx));
        assert(orig.subrange(0, idx + 1).last() == s);
        s.dispose(host);
        proof {
            idx = idx + 1;
            assert(host.ops() =~= old(host).ops() + sys_teardown_all(orig.subrange(0, idx)));
        }
    }
    assert(orig.subrange(0, orig.len() as int) =~= orig);
}


/// What tearing down each of `s`, in order, asks of the host.
pub open spec fn side_teardown_all(s: Seq<Sideload>) -> Seq<HostOp>
    decreases s.len(),
{
    if s.len() == 0 {
        seq![]
    } else {
        side_teardown_all(s.drop_last()) + sideload_teardown_ops(s.last())
    }
}

/// What the removal pass of `apply_sideloads` asks of the host: each
/// goner's teardown, unless a sink takes them.
pub open spec fn side_removal_ops(tear: bool, s: Seq<Sideload>, keys: Set<Seq<char>>) -> Seq<HostOp> {
    if tear { side_teardown_all(side_goners(s, keys)) } else { seq![] }
}

fn dispose_sideloads<H: SideHost>(host: &mut Host<H>, v: Vec<Sideload>)
    ensures
        final(host).ops() == old(host).ops() + side_teardown_all(v@),
{
    let ghost orig = v@;
    let mut v = v;
    let ghost mut idx: int = 0;
    while v.len() > 0
        invariant
            0 <= idx <= orig.len(),
            v@ == orig.subrange(idx, orig.len() as int),
            host.ops() == old(host).ops() + side_teardown_all(orig.subrange(0, idx)),
        decreases v.len(),
    {
        let s = v.remove(0);
        assert(orig.subrange(0, idx + 1).drop_last() =~= orig.subrange(0, idx));
        assert(orig.subrange(0, idx + 1).last() == s);
        s.dispose(host);
        proof {
            idx = idx + 1;
            assert(host.ops() =~= old(host).ops() + side_teardown_all(orig.subrange(0, idx)));
        }
    }
    assert(orig.subrange(0, orig.len() as int) =~= orig);
}

/// The unit names of `s`, in order.
pub open spec fn sys_svcs(s: Seq<Sysload>) -> Seq<Seq<char>> {
    s.map_values(|x: Sysload| x.svc_name@)
}

pub open spec fn side_svcs(s: Seq<Sideload>) -> Seq<Seq<char>> {
    s.map_values(|x: Sideload| x.svc_name@)
}

/// After `ops0`: a successful refresh of each of the first `i` units of
/// `svcs`, then a failed refresh of unit `i`, and nothing else.
pub open spec fn refreshes_then_failure(ops: Seq<HostOp>, ops0: Seq<HostOp>, svcs: Seq<Seq<char>>, i: int) -> bool {
    &&& 0 <= i < svcs.len()
    &&& ops.len() == ops0.len() + i + 1
    &&& ops.subrange(0, ops0.len() as int) == ops0
    &&& forall|k: int| 0 <= k < i ==> (#[trigger] ops[ops0.len() + k]) is Refresh
        && ops[ops0.len() + k]->Refresh_0 == svcs[k] && ops[ops0.len() + k]->Refresh_1 is Some
    &&& ops[ops0.len() + i] == HostOp::Refresh(svcs[i], None)
}

/// Holds the active sysloads and sideloads, by name.
pub struct SideRunner {
    cfg: SideConfig,
    sysloads: Vec<Sysload>,
    sideloads: Vec<Sideload>,
}

impl SideRunner {
    pub closed spec fn config(&self) -> SideConfig {
        self.cfg
    }

    /// The active sysloads.
    pub closed spec fn sysloads(&self) -> Seq<Sysload> {
        self.sysloads@
    }

    /// The active sideloads.
    pub closed spec fn sideloads(&self) -> Seq<Sideload> {
        self.sideloads@
    }

    pub open spec fn wf(&self) -> bool {
        sys_wf(self.config(), self.sysloads()) && side_wf(self.config(), self.sideloads())
    }

    pub fn new(cfg: SideConfig) -> (r: SideRunner)
        ensures
            r.wf(),
            r.config() == cfg,
            r.sysloads().len() == 0,
            r.sideloads().len() == 0,
    {
        SideRunner { cfg, sysloads: Vec::new(), sideloads: Vec::new() }
    }

    /// Tears every sysload down. Sideloads stay: the daemon runs them.
    pub fn stop<H: SideHost>(&mut self, host: &mut Host<H>)
        requires
            old(self).wf(),
        ensures
            final(self).wf(),
            final(self).config() == old(self).config(),
            final(self).sysloads().len() == 0,
            final(self).sideloads() == old(self).sideloads(),
            final(host).ops() == old(host).ops() + sys_teardown_all(old(self).sysloads()),
    {
        let mut gone: Vec<Sysload> = Vec::new();
        std::mem::swap(&mut gone, &mut self.sysloads);
        dispose_sysloads(host, gone);
    }

    fn has_sysload(&self, name: &String) -> (r: bool)
        ensures
            r == sys_names(self.sysloads@).contains(name@),
    {
        let mut i: usize = 0;
        while i < self.sysloads.len()
            invariant
                i <= self.sysloads.len(),
                forall|j: int| 0 <= j < i ==> self.sysloads@[j].name@ != name@,
            decreases self.sysloads.len() - i,
        {
            if self.sysloads[i].name == *name {
                return true;
            }
            i += 1;
        }
        false
    }

    /// Takes out the sysloads whose names `target` lacks, in order.
    fn take_sysload_goners(&mut self, target: &Vec<(String, String)>) -> (gone: Vec<Sysload>)
        requires
            old(self).wf(),
        ensures
            final(self).wf(),
            final(self).cfg == old(self).cfg,
            final(self).sideloads@ == old(self).sideloads@,
            gone@ == sys_goners(old(self).sysloads@, key_set(target@)),
            sys_names(final(self).sysloads@) == sys_names(old(self).sysloads@).intersect(key_set(target@)),
            forall|k: int| 0 <= k < old(self).sysloads@.len() && key_set(target@).contains(old(self).sysloads@[k].name@)
                ==> final(self).sysloads@.contains(old(self).sysloads@[k]),
    {
        let ghost keys = key_set(target@);
        let ghost orig = self.sysloads@;
        let mut rest: Vec<Sysload> = Vec::new();
        std::mem::swap(&mut rest, &mut self.sysloads);
        let mut gone: Vec<Sysload> = Vec::new();
        let ghost mut idx: int = 0;
        while rest.len() > 0
            invariant
                0 <= idx <= orig.len(),
                keys == key_set(target@),
                rest@ == orig.subrange(idx, orig.len() as int),
                gone@ == sys_goners(orig.subrange(0, idx), keys),
                self.cfg == old(self).cfg,
                self.sideloads@ == old(self).sideloads@,
                side_wf(self.cfg, self.sideloads@),
                sys_wf(self.cfg, orig),
                forall|a: int| 0 <= a < self.sysloads@.len() ==> exists|k: int| 0 <= k < idx && #[trigger] self.sysloads@[a] == orig[k],
                forall|a: int| 0 <= a < self.sysloads@.len() ==> keys.contains(#[trigger] self.sysloads@[a].name@),
                forall|k: int| 0 <= k < idx && keys.contains(orig[k].name@) ==> self.sysloads@.contains(#[trigger] orig[k]),
                sys_wf(self.cfg, self.sysloads@),
            decreases rest.len(),
        {
            let s = rest.remove(0);
            assert(orig.subrange(0, idx + 1).drop_last() =~= orig.subrange(0, idx));
            assert(s == orig[idx]);
            assert(orig.subrange(0, idx + 1).last() == orig[idx]);
            assert(orig.subrange(0, idx + 1).len() > 0);
            if target_has(target, &s.name) {
                proof {
                    assert forall|a: int| 0 <= a < self.sysloads@.len() implies self.sysloads@[a].name@ != s.name@ by {
                        let k = choose|k: int| 0 <= k < idx && self.sysloads@[a] == orig[k];
                    }
                }
                let ghost pre = self.sysloads@;
                self.sysloads.push(s);
                proof {
                    assert forall|a: int| 0 <= a < self.sysloads@.len() implies exists|k: int| 0 <= k < idx + 1 && #[trigger] self.sysloads@[a] == orig[k] by {
                        if a == self.sysloads@.len() - 1 {
                            assert(self.sysloads@[a] == orig[idx]);
                        } else {
                            let k = choose|k: int| 0 <= k < idx && self.sysloads@[a] == orig[k];
                            assert(self.sysloads@[a] == orig[k]);
                        }
                    }
                    assert forall|k: int| 0 <= k < idx + 1 && keys.contains(orig[k].name@) implies self.sysloads@.contains(#[trigger] orig[k]) by {
                        if k == idx {
                            assert(self.sysloads@[self.sysloads@.len() - 1] == orig[k]);
                        } else {
                            assert(pre.contains(orig[k]));
                            let a = choose|a: int| 0 <= a < pre.len() && pre[a] == orig[k];
                            assert(self.sysloads@[a] == pre[a]);
                        }
                    }
                }
            } else {
                gone.push(s);
            }
            proof {
                idx = idx + 1;
            }
        }
        proof {
            assert(orig.subrange(0, orig.len() as int) =~= orig);
            let names = sys_names(self.sysloads@);
            let want = sys_names(orig).intersect(keys);
            assert forall|n: Seq<char>| names.contains(n) implies want.contains(n) by {
                let a = choose|a: int| 0 <= a < self.sysloads@.len() && self.sysloads@[a].name@ == n;
                let k = choose|k: int| 0 <= k < idx && self.sysloads@[a] == orig[k];
                assert(keys.contains(self.sysloads@[a].name@));
            }
            assert forall|n: Seq<char>| want.contains(n) implies names.contains(n) by {
                let k = choose|k: int| 0 <= k < orig.len() && orig[k].name@ == n;
                assert(self.sysloads@.contains(orig[k]));
                let a = choose|a: int| 0 <= a < self.sysloads@.len() && self.sysloads@[a] == orig[k];
            }
            assert(names =~= want);
        }
        gone
    }

    /// Makes the active sysload names follow `target` (name to catalog id).
    /// Names that `target` lacks are taken out first: into `removed` when it
    /// is given, else torn down at once. Then each missing name is resolved
    /// and created, in target order; the first failure ends the call, and
    /// what was done before it stays. A name already active is left as it
    /// is, whatever id the target gives it now.
    pub fn apply_sysloads<H: SideHost>(
        &mut self,
        host: &mut Host<H>,
        target: &Vec<(String, String)>,
        defs: &SideloadDefs,
        bench: &IoModel,
        removed: Option<&mut Vec<Sysload>>,
    ) -> (r: Result<(), SideError>)
        requires
            old(self).wf(),
            names_unique(target@),
            ids_unique(defs.defs@),
        ensures
            final(self).wf(),
            final(self).config() == old(self).config(),
            final(self).sideloads() == old(self).sideloads(),
            removed matches Some(rm) ==> final(rm)@ == (*rm)@ + sys_goners(old(self).sysloads(), key_set(target@)),
            forall|k: int| 0 <= k < old(self).sysloads().len() && key_set(target@).contains(old(self).sysloads()[k].name@)
                ==> final(self).sysloads().contains(old(self).sysloads()[k]),
            sys_names(final(self).sysloads()).subset_of(key_set(target@)),
            r is Ok ==> sys_names(final(self).sysloads()) == key_set(target@),
            (exists|i: int| bad_new_entry(target@, i, sys_names(old(self).sysloads()), defs.defs@)) ==> r is Err,
            r matches Err(e) ==> host_error(e) || exists|i: int|
                bad_new_entry(target@, i, sys_names(old(self).sysloads()), defs.defs@)
                && #[trigger] lookup_error(e, target@[i].0@, target@[i].1@, defs.defs@),
            key_set(target@).subset_of(sys_names(old(self).sysloads())) ==> r is Ok,
            r is Err ==> exists|f: int| 0 <= f < target@.len() && !sys_names(final(self).sysloads()).contains(target@[f].0@)
                && forall|j: int| 0 <= j < f ==> sys_names(final(self).sysloads()).contains(#[trigger] target@[j].0@),
            forall|n: Seq<char>| sys_names(final(self).sysloads()).contains(n) ==> sys_names(old(self).sysloads()).contains(n)
                || exists|j: int| 0 <= j < target@.len() && target@[j].0@ == n && lookup_ok(n, target@[j].1@, defs.defs@),
            ({
                let pre = old(host).ops() + sys_removal_ops(removed is None, old(self).sysloads(), key_set(target@));
                &&& pre.len() <= final(host).ops().len()
                &&& final(host).ops().subrange(0, pre.len() as int) == pre
                &&& forall|k: int| pre.len() <= k < final(host).ops().len()
                    ==> sys_op_allowed(#[trigger] final(host).ops()[k], old(self).config(), target@, defs.defs@, *bench,
                        sys_names(old(self).sysloads()).intersect(key_set(target@)))
                &&& sys_add_spec(final(host).ops().skip(pre.len() as int), old(self).config(), target@, defs.defs@, *bench,
                    sys_names(old(self).sysloads()).intersect(key_set(target@)), 0, r)
            }),
    {
        let ghost keys = key_set(target@);
        let ghost old_names = sys_names(self.sysloads@);
        let ghost tear = removed is None;
        let gone = self.take_sysload_goners(target);
        match removed {
            Some(rm) => {
                let mut g = gone;
                rm.append(&mut g);
            },
            None => {
                dispose_sysloads(host, gone);
            },
        }
        let ghost kept = self.sysloads@;
        let ghost pre = host.ops();
        assert(pre == old(host).ops() + sys_removal_ops(tear, old(self).sysloads@, keys));
        let r = self.add_sysloads(host, target, defs, bench);
        proof {
            if keys.subset_of(old_names) {
                assert forall|n: Seq<char>| keys.contains(n) implies sys_names(kept).contains(n) by {
                    assert(old_names.contains(n));
                }
            }
            assert forall|i: int| 0 <= i < target@.len() implies
                (bad_new_entry(target@, i, old_names, defs.defs@) == bad_new_entry(target@, i, sys_names(kept), defs.defs@)) by {
                assert(keys.contains(target@[i].0@));
            }
            if r is Ok {
                assert(sys_names(self.sysloads@) =~= keys);
            }
            assert forall|k: int| 0 <= k < old(self).sysloads@.len() && keys.contains(old(self).sysloads@[k].name@)
                implies self.sysloads@.contains(old(self).sysloads@[k]) by {
                let a = choose|a: int| 0 <= a < kept.len() && kept[a] == old(self).sysloads@[k];
                assert(self.sysloads@[a] == kept[a]);
            }
        }
        r
    }

    /// Creates, in target order, each sysload that `target` names and that
    /// is not active; stops at the first failure.
    #[verifier::spinoff_prover]
    #[verifier::rlimit(80)]
    fn add_sysloads<H: SideHost>(
        &mut self,
        host: &mut Host<H>,
        target: &Vec<(String, String)>,
        defs: &SideloadDefs,
        bench: &IoModel,
    ) -> (r: Result<(), SideError>)
        requires
            old(self).wf(),
            names_unique(target@),
            sys_names(old(self).sysloads@).subset_of(key_set(target@)),
        ensures
            final(self).wf(),
            final(self).cfg == old(self).cfg,
            final(self).sideloads@ == old(self).sideloads@,
            old(self).sysloads@.len() <= final(self).sysloads@.len(),
            forall|a: int| 0 <= a < old(self).sysloads@.len() ==> final(self).sysloads@[a] == old(self).sysloads@[a],
            sys_names(final(self).sysloads@).subset_of(key_set(target@)),
            r is Ok ==> key_set(target@).subset_of(sys_names(final(self).sysloads@)),
            (exists|i: int| bad_new_entry(target@, i, sys_names(old(self).sysloads@), defs.defs@)) ==> r is Err,
            r matches Err(e) ==> host_error(e) || exists|i: int|
                bad_new_entry(target@, i, sys_names(old(self).sysloads@), defs.defs@)
                && #[trigger] lookup_error(e, target@[i].0@, target@[i].1@, defs.defs@),
            key_set(target@).subset_of(sys_names(old(self).sysloads@)) ==> r is Ok,
            forall|n: Seq<char>| sys_names(final(self).sysloads@).contains(n) ==> sys_names(old(self).sysloads@).contains(n)
                || exists|j: int| 0 <= j < target@.len() && target@[j].0@ == n && lookup_ok(n, target@[j].1@, defs.defs@),
            old(host).ops().len() <= final(host).ops().len(),
            final(host).ops().subrange(0, old(host).ops().len() as int) == old(host).ops(),
            forall|k: int| old(host).ops().len() <= k < final(host).ops().len()
                ==> sys_op_allowed(#[trigger] final(host).ops()[k], old(self).cfg, target@, defs.defs@, *bench, sys_names(old(self).sysloads@)),
            sys_add_spec(final(host).ops().skip(old(host).ops().len() as int), old(self).cfg, target@, defs.defs@,
                *bench, sys_names(old(self).sysloads@), 0, r),
            r is Err ==> exists|f: int| 0 <= f < target@.len() && !sys_names(final(self).sysloads@).contains(target@[f].0@)
                && forall|j: int| 0 <= j < f ==> sys_names(final(self).sysloads@).contains(#[trigger] target@[j].0@),
    {
        let ghost keys = key_set(target@);
        let ghost old_names = sys_names(self.sysloads@);
        let ghost kept = self.sysloads@;
        let ghost ops0 = host.ops();
        proof {
            assert forall|rest: Seq<HostOp>, rr: Result<(), SideError>|
                #[trigger] sys_add_spec(rest, self.cfg, target@, defs.defs@, *bench, old_names, 0, rr)
                implies sys_add_spec(host.ops().skip(ops0.len() as int) + rest, self.cfg, target@, defs.defs@, *bench, old_names, 0, rr) by {
                assert(host.ops().skip(ops0.len() as int) + rest =~= rest);
            }
        }
        let mut i: usize = 0;
        while i < target.len()
            invariant
                i <= target.len(),
                keys == key_set(target@),
                self.wf(),
                self.cfg == old(self).cfg,
                self.sideloads@ == old(self).sideloads@,
                kept == old(self).sysloads@,
                kept.len() <= self.sysloads@.len(),
                forall|a: int| 0 <= a < kept.len() ==> self.sysloads@[a] == kept[a],
                sys_names(kept) == old_names,
                sys_names(self.sysloads@).subset_of(keys),
                forall|j: int| 0 <= j < i ==> sys_names(self.sysloads@).contains(#[trigger] target@[j].0@),
                forall|n: Seq<char>| sys_names(self.sysloads@).contains(n) ==> old_names.contains(n)
                    || exists|j: int| 0 <= j < i && target@[j].0@ == n && lookup_ok(n, target@[j].1@, defs.defs@),
                forall|j: int| 0 <= j < i ==> !bad_new_entry(target@, j, old_names, defs.defs@),
                ops0 == old(host).ops(),
                ops0.len() <= host.ops().len(),
                host.ops().subrange(0, ops0.len() as int) == ops0,
                forall|k: int| ops0.len() <= k < host.ops().len()
                    ==> sys_op_allowed(#[trigger] host.ops()[k], self.cfg, target@, defs.defs@, *bench, old_names),
                names_unique(target@),
                sys_cont(host.ops().skip(ops0.len() as int), self.cfg, target@, defs.defs@, *bench, old_names, i as int),
            decreases target.len() - i,
        {
            let name = &target[i].0;
            let ghost before = self.sysloads@;
            let ghost ops_b = host.ops();
            if !self.has_sysload(name) {
                proof {
                    assert(keys.contains(name@));
                    if old_names.contains(name@) {
                        let a = choose|a: int| 0 <= a < kept.len() && kept[a].name@ == name@;
                        assert(self.sysloads@[a] == kept[a]);
                    }
                    assert forall|j: int| 0 <= j < i implies target@[j].0@ != target@[i as int].0@ by {
                        assert(sys_names(self.sysloads@).contains(target@[j].0@));
                    }
                }
                assert(!old_names.contains(name@));
                let res = resolve_spec(host, &self.cfg, name.as_str(), &target[i].1, defs);
                let ghost ops_c = host.ops();
                let ghost fnd = choose|fnd: Option<Seq<char>>| #[trigger] resolve_outcome(ops_c, ops_b, self.cfg, defs.defs@, target@[i as int].1@, fnd, res);
                let ghost pre_p = ops_b.skip(ops0.len() as int);
                proof {
                    assert forall|k: int| ops0.len() <= k < ops_c.len()
                        implies sys_op_allowed(#[trigger] ops_c[k], self.cfg, target@, defs.defs@, *bench, old_names) by {
                        if k < ops_b.len() {
                            assert(ops_c[k] == ops_b[k]);
                        }
                    }
                    assert(ops_c.subrange(0, ops0.len() as int) =~= ops0);
                }
                let spec = match res {
                    Ok(s) => s,
                    Err(e) => {
                        proof {
                            if !lookup_ok(target@[i as int].0@, target@[i as int].1@, defs.defs@) {
                                assert(bad_new_entry(target@, i as int, old_names, defs.defs@));
                                assert(ops_c.skip(ops_b.len() as int) =~= Seq::<HostOp>::empty());
                            } else {
                                assert(ops_c.skip(ops_b.len() as int) =~= seq![HostOp::FindBin(
                                    catalog_args(defs.defs@, target@[i as int].1@)[0], self.cfg.side_bin_path@, fnd)]);
                            }
                            let sg = ops_c.skip(ops_b.len() as int);
                            assert(sys_add_spec(sg, self.cfg, target@, defs.defs@, *bench, old_names, i as int, Err(e)));
                            assert(ops_c.skip(ops0.len() as int) =~= pre_p + sg);
                        }
                        assert(!sys_names(self.sysloads@).contains(target@[i as int].0@));
                        return Err(e);
                    },
                };
                let cr = create_sysload(host, &self.cfg, name, &spec, bench);
                proof {
                    let ops_d = host.ops();
                    let (d, st) = choose|d: bool, st: Option<bool>|
                        ops_d == ops_c + sysload_creation_ops(self.cfg, name@, strs(spec.args@), *bench, d, st);
                    let tr = sysload_creation_ops(self.cfg, name@, strs(spec.args@), *bench, d, st);
                    assert forall|k: int| ops0.len() <= k < ops_d.len()
                        implies sys_op_allowed(#[trigger] ops_d[k], self.cfg, target@, defs.defs@, *bench, old_names) by {
                        if k < ops_c.len() {
                            assert(ops_d[k] == ops_c[k]);
                        } else {
                            assert(ops_d[k] == tr[k - ops_c.len()]);
                            assert(sys_entry_op(ops_d[k], self.cfg, target@, defs.defs@, *bench, old_names, i as int));
                        }
                    }
                    assert(ops_d.subrange(0, ops0.len() as int) =~= ops0);
                }
                let ghost ops_d = host.ops();
                let ghost a0 = catalog_args(defs.defs@, target@[i as int].1@);
                let ghost scr = scr_path_of(self.cfg.sys_scr_path@, name@);
                let ghost (dd, st) = choose|dd: bool, st: Option<bool>|
                    ops_d == ops_c + sysload_creation_ops(self.cfg, name@, strs(spec.args@), *bench, dd, st)
                    && (cr is Ok <==> dd && st is Some)
                    && (cr matches Err(e) ==> (!dd && (e matches SideError::ScratchDir(n) && n@ == name@))
                        || (dd && (e matches SideError::Unit(n) && n@ == svc_name_of(SYSLOAD_SVC_PREFIX@, name@))));
                let ghost sg = ops_d.skip(ops_b.len() as int);
                proof {
                    assert(sg =~= seq![HostOp::FindBin(a0[0], self.cfg.side_bin_path@, fnd)]
                        + sysload_creation_ops(self.cfg, name@, strs(spec.args@), *bench, dd, st));
                    assert(strs(spec.args@) == a0.update(0, fnd->0));
                    assert(ops_d.skip(ops0.len() as int) =~= pre_p + sg);
                }
                let sl = match cr {
                    Ok(s) => s,
                    Err(e) => {
                        proof {
                            assert(sys_add_spec(sg, self.cfg, target@, defs.defs@, *bench, old_names, i as int, Err(e)));
                        }
                        assert(!sys_names(self.sysloads@).contains(target@[i as int].0@));
                        return Err(e);
                    },
                };
                proof {
                    assert forall|rest: Seq<HostOp>, rr: Result<(), SideError>|
                        #[trigger] sys_add_spec(rest, self.cfg, target@, defs.defs@, *bench, old_names, i + 1, rr)
                        implies sys_add_spec(ops_d.skip(ops0.len() as int) + rest, self.cfg, target@, defs.defs@, *bench, old_names, 0, rr) by {
                        assert((sg + rest).skip(3) =~= rest);
                        assert(sys_add_spec(sg + rest, self.cfg, target@, defs.defs@, *bench, old_names, i as int, rr));
                        assert(pre_p + (sg + rest) =~= ops_d.skip(ops0.len() as int) + rest);
                    }
                }
                proof {
                    assert forall|a: int| 0 <= a < before.len() implies before[a].name@ != sl.name@ by {
                        assert(sys_names(before).contains(before[a].name@));
                    }
                }
                self.sysloads.push(sl);
                proof {
                    let now = self.sysloads@;
                    assert(now.last().name@ == name@);
                    assert(sys_names(now).contains(name@));
                    assert forall|n: Seq<char>| sys_names(now).contains(n) implies sys_names(before).contains(n) || n == name@ by {
                        let a = choose|a: int| 0 <= a < now.len() && now[a].name@ == n;
                        if a < before.len() {
                            assert(now[a] == before[a]);
                        }
                    }
                    assert forall|j: int| 0 <= j < i implies sys_names(now).contains(#[trigger] target@[j].0@) by {
                        assert(sys_names(before).contains(target@[j].0@));
                        let a = choose|a: int| 0 <= a < before.len() && before[a].name@ == target@[j].0@;
                        assert(now[a] == before[a]);
                    }
                    assert forall|n: Seq<char>| sys_names(now).contains(n) implies old_names.contains(n)
                        || exists|j: int| 0 <= j < i + 1 && target@[j].0@ == n by {
                        if n != name@ {
                            assert(sys_names(before).contains(n));
                            if !old_names.contains(n) {
                                let j = choose|j: int| 0 <= j < i && target@[j].0@ == n && lookup_ok(n, target@[j].1@, defs.defs@);
                                assert(0 <= j < i + 1 && target@[j].0@ == n && lookup_ok(n, target@[j].1@, defs.defs@));
                            }
                        } else {
                            assert(target@[i as int].0@ == n);
                        }
                    }
                }
            } else {
                proof {
                    let a = choose|a: int| 0 <= a < before.len() && before[a].name@ == name@;
                    if !old_names.contains(name@) {
                        let j = choose|j: int| 0 <= j < i && target@[j].0@ == name@ && lookup_ok(name@, target@[j].1@, defs.defs@);
                        assert(false);
                    }
                    assert forall|rest: Seq<HostOp>, rr: Result<(), SideError>|
                        #[trigger] sys_add_spec(rest, self.cfg, target@, defs.defs@, *bench, old_names, i + 1, rr)
                        implies sys_add_spec(host.ops().skip(ops0.len() as int) + rest, self.cfg, target@, defs.defs@, *bench, old_names, 0, rr) by {
                        assert(sys_add_spec(rest, self.cfg, target@, defs.defs@, *bench, old_names, i as int, rr));
                    }
                    if !old_names.contains(name@) {
                        let j = choose|j: int| 0 <= j < i && target@[j].0@ == name@;
                        assert(!bad_new_entry(target@, i as int, old_names, defs.defs@));
                    }
                }
            }
            i += 1;
        }
        proof {
            assert(sys_add_spec(Seq::<HostOp>::empty(), self.cfg, target@, defs.defs@, *bench, old_names, i as int, Ok(())));
            assert(host.ops().skip(ops0.len() as int) + Seq::<HostOp>::empty() =~= host.ops().skip(ops0.len() as int));
            let now = sys_names(self.sysloads@);
            assert forall|n: Seq<char>| keys.contains(n) implies now.contains(n) by {
                let j = choose|j: int| 0 <= j < target@.len() && target@[j].0@ == n;
                assert(now.contains(target@[j].0@));
            }
        }
        Ok(())
    }

    fn has_sideload(&self, name: &String) -> (r: bool)
        ensures
            r == side_names(self.sideloads@).contains(name@),
    {
        let mut i: usize = 0;
        while i < self.sideloads.len()
            invariant
                i <= self.sideloads.len(),
                forall|j: int| 0 <= j < i ==> self.sideloads@[j].name@ != name@,
            decreases self.sideloads.len() - i,
        {
            if self.sideloads[i].name == *name {
                return true;
            }
            i += 1;
        }
        false
    }

    /// Takes out the sideloads whose names `target` lacks, in order.
    fn take_sideload_goners(&mut self, target: &Vec<(String, String)>) -> (gone: Vec<Sideload>)
        requires
            old(self).wf(),
        ensures
            final(self).wf(),
            final(self).cfg == old(self).cfg,
            final(self).sysloads@ == old(self).sysloads@,
            gone@ == side_goners(old(self).sideloads@, key_set(target@)),
            side_names(final(self).sideloads@) == side_names(old(self).sideloads@).intersect(key_set(target@)),
            forall|k: int| 0 <= k < old(self).sideloads@.len() && key_set(target@).contains(old(self).sideloads@[k].name@)
                ==> final(self).sideloads@.contains(old(self).sideloads@[k]),
    {
        let ghost keys = key_set(target@);
        let ghost orig = self.sideloads@;
        let mut rest: Vec<Sideload> = Vec::new();
        std::mem::swap(&mut rest, &mut self.sideloads);
        let mut gone: Vec<Sideload> = Vec::new();
        let ghost mut idx: int = 0;
        while rest.len() > 0
            invariant
                0 <= idx <= orig.len(),
                keys == key_set(target@),
                rest@ == orig.subrange(idx, orig.len() as int),
                gone@ == side_goners(orig.subrange(0, idx), keys),
                self.cfg == old(self).cfg,
                self.sysloads@ == old(self).sysloads@,
                sys_wf(self.cfg, self.sysloads@),
                side_wf(self.cfg, orig),
                forall|a: int| 0 <= a < self.sideloads@.len() ==> exists|k: int| 0 <= k < idx && #[trigger] self.sideloads@[a] == orig[k],
                forall|a: int| 0 <= a < self.sideloads@.len() ==> keys.contains(#[trigger] self.sideloads@[a].name@),
                forall|k: int| 0 <= k < idx && keys.contains(orig[k].name@) ==> self.sideloads@.contains(#[trigger] orig[k]),
                side_wf(self.cfg, self.sideloads@),
            decreases rest.len(),
        {
            let s = rest.remove(0);
            assert(orig.subrange(0, idx + 1).drop_last() =~= orig.subrange(0, idx));
            assert(s == orig[idx]);
            assert(orig.subrange(0, idx + 1).last() == orig[idx]);
            assert(orig.subrange(0, idx + 1).len() > 0);
            if target_has(target, &s.name) {
                proof {
                    assert forall|a: int| 0 <= a < self.sideloads@.len() implies self.sideloads@[a].name@ != s.name@ by {
                        let k = choose|k: int| 0 <= k < idx && self.sideloads@[a] == orig[k];
                    }
                }
                let ghost pre = self.sideloads@;
                self.sideloads.push(s);
                proof {
                    assert forall|a: int| 0 <= a < self.sideloads@.len() implies exists|k: int| 0 <= k < idx + 1 && #[trigger] self.sideloads@[a] == orig[k] by {
                        if a == self.sideloads@.len() - 1 {
                            assert(self.sideloads@[a] == orig[idx]);
                        } else {
                            let k = choose|k: int| 0 <= k < idx && self.sideloads@[a] == orig[k];
                            assert(self.sideloads@[a] == orig[k]);
                        }
                    }
                    assert forall|k: int| 0 <= k < idx + 1 && keys.contains(orig[k].name@) implies self.sideloads@.contains(#[trigger] orig[k]) by {
                        if k == idx {
                            assert(self.sideloads@[self.sideloads@.len() - 1] == orig[k]);
                        } else {
                            assert(pre.contains(orig[k]));
                            let a = choose|a: int| 0 <= a < pre.len() && pre[a] == orig[k];
                            assert(self.sideloads@[a] == pre[a]);
                        }
                    }
                }
            } else {
                gone.push(s);
            }
            proof {
                idx = idx + 1;
            }
        }
        proof {
            assert(orig.subrange(0, orig.len() as int) =~= orig);
            let names = side_names(self.sideloads@);
            let want = side_names(orig).intersect(keys);
            assert forall|n: Seq<char>| names.contains(n) implies want.contains(n) by {
                let a = choose|a: int| 0 <= a < self.sideloads@.len() && self.sideloads@[a].name@ == n;
                let k = choose|k: int| 0 <= k < idx && self.sideloads@[a] == orig[k];
                assert(keys.contains(self.sideloads@[a].name@));
            }
            assert forall|n: Seq<char>| want.contains(n) implies names.contains(n) by {
                let k = choose|k: int| 0 <= k < orig.len() && orig[k].name@ == n;
                assert(self.sideloads@.contains(orig[k]));
                let a = choose|a: int| 0 <= a < self.sideloads@.len() && self.sideloads@[a] == orig[k];
            }
            assert(names =~= want);
        }
        gone
    }

    /// Makes the active sideload names follow `target`, as
    /// `apply_sysloads` does for sysloads; a sideload is created by writing
    /// its job file for the daemon, and no unit is started here.
    pub fn apply_sideloads<H: SideHost>(
        &mut self,
        host: &mut Host<H>,
        target: &Vec<(String, String)>,
        defs: &SideloadDefs,
        bench: &IoModel,
        removed: Option<&mut Vec<Sideload>>,
    ) -> (r: Result<(), SideError>)
        requires
            old(self).wf(),
            names_unique(target@),
            ids_unique(defs.defs@),
        ensures
            final(self).wf(),
            final(self).config() == old(self).config(),
            final(self).sysloads() == old(self).sysloads(),
            removed matches Some(rm) ==> final(rm)@ == (*rm)@ + side_goners(old(self).sideloads(), key_set(target@)),
            forall|k: int| 0 <= k < old(self).sideloads().len() && key_set(target@).contains(old(self).sideloads()[k].name@)
                ==> final(self).sideloads().contains(old(self).sideloads()[k]),
            side_names(final(self).sideloads()).subset_of(key_set(target@)),
            r is Ok ==> side_names(final(self).sideloads()) == key_set(target@),
            (exists|i: int| bad_new_entry(target@, i, side_names(old(self).sideloads()), defs.defs@)) ==> r is Err,
            r matches Err(e) ==> host_error(e) || exists|i: int|
                bad_new_entry(target@, i, side_names(old(self).sideloads()), defs.defs@)
                && #[trigger] lookup_error(e, target@[i].0@, target@[i].1@, defs.defs@),
            key_set(target@).subset_of(side_names(old(self).sideloads())) ==> r is Ok,
            r is Err ==> exists|f: int| 0 <= f < target@.len() && !side_names(final(self).sideloads()).contains(target@[f].0@)
                && forall|j: int| 0 <= j < f ==> side_names(final(self).sideloads()).contains(#[trigger] target@[j].0@),
            forall|n: Seq<char>| side_names(final(self).sideloads()).contains(n) ==> side_names(old(self).sideloads()).contains(n)
                || exists|j: int| 0 <= j < target@.len() && target@[j].0@ == n && lookup_ok(n, target@[j].1@, defs.defs@),
            ({
                let pre = old(host).ops() + side_removal_ops(removed is None, old(self).sideloads(), key_set(target@));
                &&& pre.len() <= final(host).ops().len()
                &&& final(host).ops().subrange(0, pre.len() as int) == pre
                &&& forall|k: int| pre.len() <= k < final(host).ops().len()
                    ==> side_op_allowed(#[trigger] final(host).ops()[k], old(self).config(), target@, defs.defs@, *bench,
                        side_names(old(self).sideloads()).intersect(key_set(target@)))
                &&& side_add_spec(final(host).ops().skip(pre.len() as int), old(self).config(), target@, defs.defs@, *bench,
                    side_names(old(self).sideloads()).intersect(key_set(target@)), 0, r)
            }),
    {
        let ghost keys = key_set(target@);
        let ghost old_names = side_names(self.sideloads@);
        let ghost tear = removed is None;
        let gone = self.take_sideload_goners(target);
        match removed {
            Some(rm) => {
                let mut g = gone;
                rm.append(&mut g);
            },
            None => {
                dispose_sideloads(host, gone);
            },
        }
        let ghost kept = self.sideloads@;
        let ghost pre = host.ops();
        assert(pre == old(host).ops() + side_removal_ops(tear, old(self).sideloads@, keys));
        let r = self.add_sideloads(host, target, defs, bench);
        proof {
            if keys.subset_of(old_names) {
                assert forall|n: Seq<char>| keys.contains(n) implies side_names(kept).contains(n) by {
                    assert(old_names.contains(n));
                }
            }
            assert forall|i: int| 0 <= i < target@.len() implies
                (bad_new_entry(target@, i, old_names, defs.defs@) == bad_new_entry(target@, i, side_names(kept), defs.defs@)) by {
                assert(keys.contains(target@[i].0@));
            }
            if r is Ok {
                assert(side_names(self.sideloads@) =~= keys);
            }
            assert forall|k: int| 0 <= k < old(self).sideloads@.len() && keys.contains(old(self).sideloads@[k].name@)
                implies self.sideloads@.contains(old(self).sideloads@[k]) by {
                let a = choose|a: int| 0 <= a < kept.len() && kept[a] == old(self).sideloads@[k];
                assert(self.sideloads@[a] == kept[a]);
            }
        }
        r
    }

    /// Creates, in target order, each sideload that `target` names and that
    /// is not active; stops at the first failure.
    #[verifier::spinoff_prover]
    #[verifier::rlimit(80)]
    fn add_sideloads<H: SideHost>(
        &mut self,
        host: &mut Host<H>,
        target: &Vec<(String, String)>,
        defs: &SideloadDefs,
        bench: &IoModel,
    ) -> (r: Result<(), SideError>)
        requires
            old(self).wf(),
            names_unique(target@),
            side_names(old(self).sideloads@).subset_of(key_set(target@)),
        ensures
            final(self).wf(),
            final(self).cfg == old(self).cfg,
            final(self).sysloads@ == old(self).sysloads@,
            old(self).sideloads@.len() <= final(self).sideloads@.len(),
            forall|a: int| 0 <= a < old(self).sideloads@.len() ==> final(self).sideloads@[a] == old(self).sideloads@[a],
            side_names(final(self).sideloads@).subset_of(key_set(target@)),
            r is Ok ==> key_set(target@).subset_of(side_names(final(self).sideloads@)),
            (exists|i: int| bad_new_entry(target@, i, side_names(old(self).sideloads@), defs.defs@)) ==> r is Err,
            r matches Err(e) ==> host_error(e) || exists|i: int|
                bad_new_entry(target@, i, side_names(old(self).sideloads@), defs.defs@)
                && #[trigger] lookup_error(e, target@[i].0@, target@[i].1@, defs.defs@),
            key_set(target@).subset_of(side_names(old(self).sideloads@)) ==> r is Ok,
            forall|n: Seq<char>| side_names(final(self).sideloads@).contains(n) ==> side_names(old(self).sideloads@).contains(n)
                || exists|j: int| 0 <= j < target@.len() && target@[j].0@ == n && lookup_ok(n, target@[j].1@, defs.defs@),
            old(host).ops().len() <= final(host).ops().len(),
            final(host).ops().subrange(0, old(host).ops().len() as int) == old(host).ops(),
            forall|k: int| old(host).ops().len() <= k < final(host).ops().len()
                ==> side_op_allowed(#[trigger] final(host).ops()[k], old(self).cfg, target@, defs.defs@, *bench, side_names(old(self).sideloads@)),
            side_add_spec(final(host).ops().skip(old(host).ops().len() as int), old(self).cfg, target@, defs.defs@,
                *bench, side_names(old(self).sideloads@), 0, r),
            r is Err ==> exists|f: int| 0 <= f < target@.len() && !side_names(final(self).sideloads@).contains(target@[f].0@)
                && forall|j: int| 0 <= j < f ==> side_names(final(self).sideloads@).contains(#[trigger] target@[j].0@),
    {
        let ghost keys = key_set(target@);
        let ghost old_names = side_names(self.sideloads@);
        let ghost kept = self.sideloads@;
        let ghost ops0 = host.ops();
        proof {
            assert forall|rest: Seq<HostOp>, rr: Result<(), SideError>|
                #[trigger] side_add_spec(rest, self.cfg, target@, defs.defs@, *bench, old_names, 0, rr)
                implies side_add_spec(host.ops().skip(ops0.len() as int) + rest, self.cfg, target@, defs.defs@, *bench, old_names, 0, rr) by {
                assert(host.ops().skip(ops0.len() as int) + rest =~= rest);
            }
        }
        let mut i: usize = 0;
        while i < target.len()
            invariant
                i <= target.len(),
                keys == key_set(target@),
                self.wf(),
                self.cfg == old(self).cfg,
                self.sysloads@ == old(self).sysloads@,
                kept == old(self).sideloads@,
                kept.len() <= self.sideloads@.len(),
                forall|a: int| 0 <= a < kept.len() ==> self.sideloads@[a] == kept[a],
                side_names(kept) == old_names,
                side_names(self.sideloads@).subset_of(keys),
                forall|j: int| 0 <= j < i ==> side_names(self.sideloads@).contains(#[trigger] target@[j].0@),
                forall|n: Seq<char>| side_names(self.sideloads@).contains(n) ==> old_names.contains(n)
                    || exists|j: int| 0 <= j < i && target@[j].0@ == n && lookup_ok(n, target@[j].1@, defs.defs@),
                forall|j: int| 0 <= j < i ==> !bad_new_entry(target@, j, old_names, defs.defs@),
                ops0 == old(host).ops(),
                ops0.len() <= host.ops().len(),
                host.ops().subrange(0, ops0.len() as int) == ops0,
                forall|k: int| ops0.len() <= k < host.ops().len()
                    ==> side_op_allowed(#[trigger] host.ops()[k], self.cfg, target@, defs.defs@, *bench, old_names),
                names_unique(target@),
                side_cont(host.ops().skip(ops0.len() as int), self.cfg, target@, defs.defs@, *bench, old_names, i as int),
            decreases target.len() - i,
        {
            let name = &target[i].0;
            let ghost before = self.sideloads@;
            let ghost ops_b = host.ops();
            if !self.has_sideload(name) {
                proof {
                    assert(keys.contains(name@));
                    if old_names.contains(name@) {
                        let a = choose|a: int| 0 <= a < kept.len() && kept[a].name@ == name@;
                        assert(self.sideloads@[a] == kept[a]);
                    }
                    assert forall|j: int| 0 <= j < i implies target@[j].0@ != target@[i as int].0@ by {
                        assert(side_names(self.sideloads@).contains(target@[j].0@));
                    }
                }
                assert(!old_names.contains(name@));
                let res = resolve_spec(host, &self.cfg, name.as_str(), &target[i].1, defs);
                let ghost ops_c = host.ops();
                let ghost fnd = choose|fnd: Option<Seq<char>>| #[trigger] resolve_outcome(ops_c, ops_b, self.cfg, defs.defs@, target@[i as int].1@, fnd, res);
                let ghost pre_p = ops_b.skip(ops0.len() as int);
                proof {
                    assert forall|k: int| ops0.len() <= k < ops_c.len()
                        implies side_op_allowed(#[trigger] ops_c[k], self.cfg, target@, defs.defs@, *bench, old_names) by {
                        if k < ops_b.len() {
                            assert(ops_c[k] == ops_b[k]);
                        }
                    }
                    assert(ops_c.subrange(0, ops0.len() as int) =~= ops0);
                }
                let spec = match res {
                    Ok(s) => s,
                    Err(e) => {
                        proof {
                            if !lookup_ok(target@[i as int].0@, target@[i as int].1@, defs.defs@) {
                                assert(bad_new_entry(target@, i as int, old_names, defs.defs@));
                                assert(ops_c.skip(ops_b.len() as int) =~= Seq::<HostOp>::empty());
                            } else {
                                assert(ops_c.skip(ops_b.len() as int) =~= seq![HostOp::FindBin(
                                    catalog_args(defs.defs@, target@[i as int].1@)[0], self.cfg.side_bin_path@, fnd)]);
                            }
                            let sg = ops_c.skip(ops_b.len() as int);
                            assert(side_add_spec(sg, self.cfg, target@, defs.defs@, *bench, old_names, i as int, Err(e)));
                            assert(ops_c.skip(ops0.len() as int) =~= pre_p + sg);
                        }
                        assert(!side_names(self.sideloads@).contains(target@[i as int].0@));
                        return Err(e);
                    },
                };
                let cr = create_sideload(host, &self.cfg, name, &spec, bench);
                proof {
                    let ops_d = host.ops();
                    let (d, sv, at) = choose|d: bool, sv: bool, at: bool|
                        ops_d == ops_c + sideload_creation_ops(self.cfg, name@, strs(spec.args@), spec.frozen_exp, *bench, d, sv, at);
                    let tr = sideload_creation_ops(self.cfg, name@, strs(spec.args@), spec.frozen_exp, *bench, d, sv, at);
                    assert forall|k: int| ops0.len() <= k < ops_d.len()
                        implies side_op_allowed(#[trigger] ops_d[k], self.cfg, target@, defs.defs@, *bench, old_names) by {
                        if k < ops_c.len() {
                            assert(ops_d[k] == ops_c[k]);
                        } else {
                            assert(ops_d[k] == tr[k - ops_c.len()]);
                            assert(side_entry_op(ops_d[k], self.cfg, target@, defs.defs@, *bench, old_names, i as int));
                        }
                    }
                    assert(ops_d.subrange(0, ops0.len() as int) =~= ops0);
                }
                let ghost ops_d = host.ops();
                let ghost a0 = catalog_args(defs.defs@, target@[i as int].1@);
                let ghost (dd, sv, at) = choose|dd: bool, sv: bool, at: bool|
                    ops_d == ops_c + sideload_creation_ops(self.cfg, name@, strs(spec.args@), spec.frozen_exp, *bench, dd, sv, at)
                    && (cr is Ok <==> dd && sv && at)
                    && (cr matches Err(e) ==> (!dd && (e matches SideError::ScratchDir(n) && n@ == name@))
                        || (dd && !sv && (e matches SideError::JobFile(p) && p@ == job_path_of(self.cfg.sideloader_daemon_jobs_path@, name@)))
                        || (dd && sv && (e matches SideError::Unit(n) && n@ == svc_name_of(SIDELOAD_SVC_PREFIX@, name@))));
                let ghost sg = ops_d.skip(ops_b.len() as int);
                proof {
                    assert(sg =~= seq![HostOp::FindBin(a0[0], self.cfg.side_bin_path@, fnd)]
                        + sideload_creation_ops(self.cfg, name@, strs(spec.args@), spec.frozen_exp, *bench, dd, sv, at));
                    assert(strs(spec.args@) == a0.update(0, fnd->0));
                    assert(ops_d.skip(ops0.len() as int) =~= pre_p + sg);
                }
                let sl = match cr {
                    Ok(s) => s,
                    Err(e) => {
                        proof {
                            assert(side_add_spec(sg, self.cfg, target@, defs.defs@, *bench, old_names, i as int, Err(e)));
                        }
                        assert(!side_names(self.sideloads@).contains(target@[i as int].0@));
                        return Err(e);
                    },
                };
                proof {
                    assert forall|rest: Seq<HostOp>, rr: Result<(), SideError>|
                        #[trigger] side_add_spec(rest, self.cfg, target@, defs.defs@, *bench, old_names, i + 1, rr)
                        implies side_add_spec(ops_d.skip(ops0.len() as int) + rest, self.cfg, target@, defs.defs@, *bench, old_names, 0, rr) by {
                        assert((sg + rest).skip(4) =~= rest);
                        assert(side_add_spec(sg + rest, self.cfg, target@, defs.defs@, *bench, old_names, i as int, rr));
                        assert(pre_p + (sg + rest) =~= ops_d.skip(ops0.len() as int) + rest);
                    }
                }
                proof {
                    assert forall|a: int| 0 <= a < before.len() implies before[a].name@ != sl.name@ by {
                        assert(side_names(before).contains(before[a].name@));
                    }
                }
                self.sideloads.push(sl);
                proof {
                    let now = self.sideloads@;
                    assert(now.last().name@ == name@);
                    assert(side_names(now).contains(name@));
                    assert forall|n: Seq<char>| side_names(now).contains(n) implies side_names(before).contains(n) || n == name@ by {
                        let a = choose|a: int| 0 <= a < now.len() && now[a].name@ == n;
                        if a < before.len() {
                            assert(now[a] == before[a]);
                        }
                    }
                    assert forall|j: int| 0 <= j < i implies side_names(now).contains(#[trigger] target@[j].0@) by {
                        assert(side_names(before).contains(target@[j].0@));
                        let a = choose|a: int| 0 <= a < before.len() && before[a].name@ == target@[j].0@;
                        assert(now[a] == before[a]);
                    }
                    assert forall|n: Seq<char>| side_names(now).contains(n) implies old_names.contains(n)
                        || exists|j: int| 0 <= j < i + 1 && target@[j].0@ == n by {
                        if n != name@ {
                            assert(side_names(before).contains(n));
                            if !old_names.contains(n) {
                                let j = choose|j: int| 0 <= j < i && target@[j].0@ == n && lookup_ok(n, target@[j].1@, defs.defs@);
                                assert(0 <= j < i + 1 && target@[j].0@ == n && lookup_ok(n, target@[j].1@, defs.defs@));
                            }
                        } else {
                            assert(target@[i as int].0@ == n);
                        }
                    }
                }
            } else {
                proof {
                    let a = choose|a: int| 0 <= a < before.len() && before[a].name@ == name@;
                    if !old_names.contains(name@) {
                        let j = choose|j: int| 0 <= j < i && target@[j].0@ == name@ && lookup_ok(name@, target@[j].1@, defs.defs@);
                        assert(false);
                    }
                    assert forall|rest: Seq<HostOp>, rr: Result<(), SideError>|
                        #[trigger] side_add_spec(rest, self.cfg, target@, defs.defs@, *bench, old_names, i + 1, rr)
                        implies side_add_spec(host.ops().skip(ops0.len() as int) + rest, self.cfg, target@, defs.defs@, *bench, old_names, 0, rr) by {
                        assert(side_add_spec(rest, self.cfg, target@, defs.defs@, *bench, old_names, i as int, rr));
                    }
                    if !old_names.contains(name@) {
                        let j = choose|j: int| 0 <= j < i && target@[j].0@ == name@;
                        assert(!bad_new_entry(target@, i as int, old_names, defs.defs@));
                    }
                }
            }
            i += 1;
        }
        proof {
            assert(side_add_spec(Seq::<HostOp>::empty(), self.cfg, target@, defs.defs@, *bench, old_names, i as int, Ok(())));
            assert(host.ops().skip(ops0.len() as int) + Seq::<HostOp>::empty() =~= host.ops().skip(ops0.len() as int));
            let now = side_names(self.sideloads@);
            assert forall|n: Seq<char>| keys.contains(n) implies now.contains(n) by {
                let j = choose|j: int| 0 <= j < target@.len() && target@[j].0@ == n;
                assert(now.contains(target@[j].0@));
            }
        }
        Ok(())
    }



    /// Refreshes each sysload's unit, in order; the first refresh that fails
    /// fails the whole report.
    pub fn report_sysloads<H: SideHost>(&self, host: &mut Host<H>) -> (r: Result<Vec<(String, SysloadReport)>, SideError>)
        ensures
            r matches Ok(v) ==> v@.len() == self.sysloads().len() && forall|i: int| 0 <= i < v@.len() ==>
                (#[trigger] v@[i]).0@ == self.sysloads()[i].name@ && v@[i].1.svc.name@ == self.sysloads()[i].svc_name@,
            r matches Err(e) ==> e matches SideError::Refresh(n) && exists|i: int| 0 <= i < self.sysloads().len()
                && n@ == (#[trigger] self.sysloads()[i]).svc_name@,
            r matches Ok(v) ==> final(host).ops() == old(host).ops() + v@.map_values(|p: (String, SysloadReport)|
                HostOp::Refresh(p.1.svc.name@, Some(p.1.svc.state))),
            r matches Err(e) ==> exists|i: int| #[trigger] refreshes_then_failure(final(host).ops(), old(host).ops(), sys_svcs(self.sysloads()), i)
                && (e matches SideError::Refresh(n) && n@ == sys_svcs(self.sysloads())[i]),
    {
        let mut rep: Vec<(String, SysloadReport)> = Vec::new();
        let mut i: usize = 0;
        while i < self.sysloads.len()
            invariant
                i <= self.sysloads.len(),
                rep@.len() == i,
                forall|k: int| 0 <= k < i ==> (#[trigger] rep@[k]).0@ == self.sysloads@[k].name@
                    && rep@[k].1.svc.name@ == self.sysloads@[k].svc_name@,
                host.ops() == old(host).ops() + rep@.map_values(|p: (String, SysloadReport)|
                    HostOp::Refresh(p.1.svc.name@, Some(p.1.svc.state))),
            decreases self.sysloads.len() - i,
        {
            let sl = &self.sysloads[i];
            match host.refresh_unit(sl.svc_name.as_str()) {
                Some(state) => {
                    let ghost r0 = rep@;
                    rep.push((sl.name.clone(), SysloadReport { svc: SvcReport { name: sl.svc_name.clone(), state } }));
                    assert(rep@.map_values(|p: (String, SysloadReport)| HostOp::Refresh(p.1.svc.name@, Some(p.1.svc.state)))
                        =~= r0.map_values(|p: (String, SysloadReport)| HostOp::Refresh(p.1.svc.name@, Some(p.1.svc.state)))
                        .push(HostOp::Refresh(sl.svc_name@, Some(state))));
                },
                None => {
                    assert(self.sysloads()[i as int].svc_name@ == sl.svc_name@);
                    proof {
                        let o0 = old(host).ops();
                        let o = host.ops();
                        assert forall|k: int| 0 <= k < i implies (#[trigger] o[o0.len() + k]) is Refresh
                            && o[o0.len() + k]->Refresh_0 == sys_svcs(self.sysloads())[k] && o[o0.len() + k]->Refresh_1 is Some by {
                            assert(o[o0.len() + k] == HostOp::Refresh(rep@[k].1.svc.name@, Some(rep@[k].1.svc.state)));
                        }
                        assert(o.subrange(0, o0.len() as int) =~= o0);
                        assert(refreshes_then_failure(o, o0, sys_svcs(self.sysloads()), i as int));
                    }
                    return Err(SideError::Refresh(sl.svc_name.clone()));
                },
            }
            i += 1;
        }
        Ok(rep)
    }

    /// Refreshes each sideload's unit, in order; the first refresh that
    /// fails fails the whole report.
    pub fn report_sideloads<H: SideHost>(&self, host: &mut Host<H>) -> (r: Result<Vec<(String, SideloadReport)>, SideError>)
        ensures
            r matches Ok(v) ==> v@.len() == self.sideloads().len() && forall|i: int| 0 <= i < v@.len() ==>
                (#[trigger] v@[i]).0@ == self.sideloads()[i].name@ && v@[i].1.svc.name@ == self.sideloads()[i].svc_name@,
            r matches Err(e) ==> e matches SideError::Refresh(n) && exists|i: int| 0 <= i < self.sideloads().len()
                && n@ == (#[trigger] self.sideloads()[i]).svc_name@,
            r matches Ok(v) ==> final(host).ops() == old(host).ops() + v@.map_values(|p: (String, SideloadReport)|
                HostOp::Refresh(p.1.svc.name@, Some(p.1.svc.state))),
            r matches Err(e) ==> exists|i: int| #[trigger] refreshes_then_failure(final(host).ops(), old(host).ops(), side_svcs(self.sideloads()), i)
                && (e matches SideError::Refresh(n) && n@ == side_svcs(self.sideloads())[i]),
    {
        let mut rep: Vec<(String, SideloadReport)> = Vec::new();
        let mut i: usize = 0;
        while i < self.sideloads.len()
            invariant
                i <= self.sideloads.len(),
                rep@.len() == i,
                forall|k: int| 0 <= k < i ==> (#[trigger] rep@[k]).0@ == self.sideloads@[k].name@
                    && rep@[k].1.svc.name@ == self.sideloads@[k].svc_name@,
                host.ops() == old(host).ops() + rep@.map_values(|p: (String, SideloadReport)|
                    HostOp::Refresh(p.1.svc.name@, Some(p.1.svc.state))),
            decreases self.sideloads.len() - i,
        {
            let sl = &self.sideloads[i];
            match host.refresh_unit(sl.svc_name.as_str()) {
                Some(state) => {
                    let ghost r0 = rep@;
                    rep.push((sl.name.clone(), SideloadReport { svc: SvcReport { name: sl.svc_name.clone(), state } }));
                    assert(rep@.map_values(|p: (String, SideloadReport)| HostOp::Refresh(p.1.svc.name@, Some(p.1.svc.state)))
                        =~= r0.map_values(|p: (String, SideloadReport)| HostOp::Refresh(p.1.svc.name@, Some(p.1.svc.state)))
                        .push(HostOp::Refresh(sl.svc_name@, Some(state))));
                },
                None => {
                    assert(self.sideloads()[i as int].svc_name@ == sl.svc_name@);
                    proof {
                        let o0 = old(host).ops();
                        let o = host.ops();
                        assert forall|k: int| 0 <= k < i implies (#[trigger] o[o0.len() + k]) is Refresh
                            && o[o0.len() + k]->Refresh_0 == side_svcs(self.sideloads())[k] && o[o0.len() + k]->Refresh_1 is Some by {
                            assert(o[o0.len() + k] == HostOp::Refresh(rep@[k].1.svc.name@, Some(rep@[k].1.svc.state)));
                        }
                        assert(o.subrange(0, o0.len() as int) =~= o0);
                        assert(refreshes_then_failure(o, o0, side_svcs(self.sideloads()), i as int));
                    }
                    return Err(SideError::Refresh(sl.svc_name.clone()));
                },
            }
            i += 1;
        }
        Ok(rep)
    }

    /// The names of the active sysloads, in order.
    pub fn sysload_names(&self) -> (r: Vec<String>)
        ensures
            r@.len() == self.sysloads().len(),
            forall|i: int| 0 <= i < r@.len() ==> (#[trigger] r@[i])@ == self.sysloads()[i].name@,
    {
        let mut v: Vec<String> = Vec::new();
        let mut i: usize = 0;
        while i < self.sysloads.len()
            invariant
                i <= self.sysloads.len(),
                v@.len() == i,
                forall|k: int| 0 <= k < i ==> (#[trigger] v@[k])@ == self.sysloads@[k].name@,
            decreases self.sysloads.len() - i,
        {
            v.push(self.sysloads[i].name.clone());
            i += 1;
        }
        v
    }

    /// The names of the active sideloads, in order.
    pub fn sideload_names(&self) -> (r: Vec<String>)
        ensures
            r@.len() == self.sideloads().len(),
            forall|i: int| 0 <= i < r@.len() ==> (#[trigger] r@[i])@ == self.sideloads()[i].name@,
    {
        let mut v: Vec<String> = Vec::new();
        let mut i: usize = 0;
        while i < self.sideloads.len()
            invariant
                i <= self.sideloads.len(),
                v@.len() == i,
                forall|k: int| 0 <= k < i ==> (#[trigger] v@[k])@ == self.sideloads@[k].name@,
            decreases self.sideloads.len() - i,
        {
            v.push(self.sideloads[i].name.clone());
            i += 1;
        }
        v
    }
}

proof fn lemma_suffix_eq(a: Seq<char>, b: Seq<char>, x: Seq<char>, y: Seq<char>)
    requires
        a + b + x == a + b + y,
    ensures
        x == y,
{
    let l = (a + b).len();
    assert(x =~= (a + b + x).subrange(l as int, (a + b + x).len() as int));
    assert(y =~= (a + b + y).subrange(l as int, (a + b + y).len() as int));
}

proof fn lemma_middle_eq(a: Seq<char>, x: Seq<char>, y: Seq<char>, c: Seq<char>)
    requires
        a + x + c == a + y + c,
    ensures
        x == y,
{
    let s1 = a + x + c;
    let s2 = a + y + c;
    assert(x =~= s1.subrange(a.len() as int, (a.len() + x.len()) as int));
    assert(y =~= s2.subrange(a.len() as int, (a.len() + y.len()) as int));
}

/// A target entry that fails validation or lookup gets nothing from the
/// host: no operation that `apply_sysloads` may ask for makes or names its
/// scratch directory or its unit.
pub proof fn lemma_bad_sysload_entry_untouched(op: HostOp, cfg: SideConfig, t: Seq<(String, String)>, defs: Seq<(String, SideloadSpec)>, io: IoModel, active: Set<Seq<char>>, b: int)
    requires
        names_unique(t),
        0 <= b < t.len(),
        !lookup_ok(t[b].0@, t[b].1@, defs),
        sys_op_allowed(op, cfg, t, defs, io, active),
    ensures
        op matches HostOp::CreateDir(p, _) ==> p != scr_path_of(cfg.sys_scr_path@, t[b].0@),
        op matches HostOp::PurgeDir(p) ==> p != scr_path_of(cfg.sys_scr_path@, t[b].0@),
        op matches HostOp::StartTransient(u, _) ==> u.name != svc_name_of(SYSLOAD_SVC_PREFIX@, t[b].0@),
{
    if !(op is FindBin) {
        let i = choose|i: int| #[trigger] sys_entry_op(op, cfg, t, defs, io, active, i);
        match op {
            HostOp::CreateDir(p, _) => {
                if p == scr_path_of(cfg.sys_scr_path@, t[b].0@) {
                    lemma_suffix_eq(cfg.sys_scr_path@, "/"@, t[i].0@, t[b].0@);
                }
            },
            HostOp::PurgeDir(p) => {
                if p == scr_path_of(cfg.sys_scr_path@, t[b].0@) {
                    lemma_suffix_eq(cfg.sys_scr_path@, "/"@, t[i].0@, t[b].0@);
                }
            },
            HostOp::StartTransient(u, _) => {
                if u.name == svc_name_of(SYSLOAD_SVC_PREFIX@, t[b].0@) {
                    lemma_middle_eq(SYSLOAD_SVC_PREFIX@, t[i].0@, t[b].0@, SVC_SUFFIX@);
                }
            },
            _ => {},
        }
    }
}

/// A target entry that fails validation or lookup gets nothing from the
/// host: no operation that `apply_sideloads` may ask for makes or names its
/// scratch directory, its job file or its unit.
pub proof fn lemma_bad_sideload_entry_untouched(op: HostOp, cfg: SideConfig, t: Seq<(String, String)>, defs: Seq<(String, SideloadSpec)>, io: IoModel, active: Set<Seq<char>>, b: int)
    requires
        names_unique(t),
        0 <= b < t.len(),
        !lookup_ok(t[b].0@, t[b].1@, defs),
        side_op_allowed(op, cfg, t, defs, io, active),
    ensures
        op matches HostOp::CreateDir(p, _) ==> p != scr_path_of(cfg.side_scr_path@, t[b].0@),
        op matches HostOp::PurgeDir(p) ==> p != scr_path_of(cfg.side_scr_path@, t[b].0@),
        op matches HostOp::SaveJobs(p, _, _) ==> p != job_path_of(cfg.sideloader_daemon_jobs_path@, t[b].0@),
        op matches HostOp::RemoveFile(p) ==> p != job_path_of(cfg.sideloader_daemon_jobs_path@, t[b].0@),
        op matches HostOp::AttachUnit(n, _) ==> n != svc_name_of(SIDELOAD_SVC_PREFIX@, t[b].0@),
        !(op is StartTransient),
{
    if !(op is FindBin) {
        let i = choose|i: int| #[trigger] side_entry_op(op, cfg, t, defs, io, active, i);
        let root = cfg.side_scr_path@;
        let jd = cfg.sideloader_daemon_jobs_path@;
        match op {
            HostOp::CreateDir(p, _) => {
                if p == scr_path_of(root, t[b].0@) {
                    lemma_suffix_eq(root, "/"@, t[i].0@, t[b].0@);
                }
            },
            HostOp::PurgeDir(p) => {
                if p == scr_path_of(root, t[b].0@) {
                    lemma_suffix_eq(root, "/"@, t[i].0@, t[b].0@);
                }
            },
            HostOp::SaveJobs(p, _, _) => {
                if p == job_path_of(jd, t[b].0@) {
                    lemma_middle_eq(jd + "/"@, t[i].0@, t[b].0@, JOB_SUFFIX@);
                }
            },
            HostOp::RemoveFile(p) => {
                if p == job_path_of(jd, t[b].0@) {
                    lemma_middle_eq(jd + "/"@, t[i].0@, t[b].0@, JOB_SUFFIX@);
                }
            },
            HostOp::AttachUnit(n, _) => {
                if n == svc_name_of(SIDELOAD_SVC_PREFIX@, t[b].0@) {
                    lemma_middle_eq(SIDELOAD_SVC_PREFIX@, t[i].0@, t[b].0@, SVC_SUFFIX@);
                }
            },
            _ => {},
        }
    }
}

} // verus!
