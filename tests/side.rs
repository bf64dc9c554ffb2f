use rd_side::balloon::{balloon_plan, balloon_unit_request, Balloon, BalloonPlan, BALLOON_UNIT_NAME};
use rd_side::model::{
    IoModel, SideConfig, SideError, SideloadDefs, SideloadSpec, SideloaderJobs, UnitRequest,
    UnitState,
};
use rd_side::purge::{classify_os_error, removal_step, RemovalStep, RemoveAttempt, REMOVE_BUDGET_MS};
use rd_side::resolve::{
    envs, job_path, resolve_binary, scr_path, sideload_svc_name, sysload_svc_name,
    verify_and_lookup_svc,
};
use rd_side::host::{Host, SideHost, TeardownStep};
use rd_side::runner::{SideRunner, Sideload, Sysload};
use rd_side::text::{decimal, valid_name};
use std::collections::{BTreeMap, BTreeSet};

/// A host that keeps directories, units and job files in memory.
#[derive(Default)]
struct RecHost {
    bins: BTreeSet<String>,
    dirs: BTreeSet<String>,
    files: BTreeMap<String, String>,
    units: BTreeMap<String, UnitState>,
    started: Vec<String>,
    stopped: Vec<String>,
    fail_dirs: bool,
    fail_start: bool,
    fail_create: bool,
    fail_save: bool,
    fail_attach: bool,
    fail_refresh: bool,
    /// Attempts that a writer keeps a directory non-empty for.
    busy_attempts: u32,
    attempts: u32,
}

impl RecHost {
    fn new() -> Self {
        let mut h = RecHost::default();
        h.bins.insert("burn-cpus.sh".to_string());
        h.bins.insert("stress".to_string());
        h
    }

    /// Runs a recursive removal as the agent does, one millisecond per try.
    fn purge(&mut self, path: &str) -> RemovalStep {
        let mut elapsed: u64 = 0;
        loop {
            self.attempts += 1;
            let attempt = if !self.dirs.contains(path) {
                RemoveAttempt::NotFound
            } else if self.busy_attempts > 0 {
                self.busy_attempts -= 1;
                RemoveAttempt::NotEmpty
            } else {
                self.dirs.remove(path);
                RemoveAttempt::Removed
            };
            let step = removal_step(attempt, elapsed);
            if step != RemovalStep::Retry {
                return step;
            }
            elapsed += 1;
        }
    }
}

impl SideHost for RecHost {
    fn find_bin(&mut self, bin: &str, dir: &str) -> Option<String> {
        if self.bins.contains(bin) {
            Some(format!("{}/{}", dir, bin))
        } else {
            None
        }
    }

    fn create_dir_all(&mut self, path: &str) -> bool {
        if self.fail_dirs {
            return false;
        }
        self.dirs.insert(path.to_string());
        true
    }

    fn start_transient(&mut self, req: &UnitRequest) -> Option<bool> {
        if self.fail_create {
            return None;
        }
        self.started.push(req.name.clone());
        if self.fail_start {
            self.units.insert(req.name.clone(), UnitState::Failed);
            Some(false)
        } else {
            self.units.insert(req.name.clone(), UnitState::Running);
            Some(true)
        }
    }

    fn save_jobs(&mut self, path: &str, jobs: &SideloaderJobs) -> bool {
        if self.fail_save {
            return false;
        }
        let j = &jobs.sideloader_jobs[0];
        let text = format!(
            "{}|{}|{}|{}|{}",
            j.id,
            j.args.join(" "),
            j.envs.join(" "),
            j.frozen_expiration,
            j.working_dir
        );
        self.files.insert(path.to_string(), text);
        true
    }

    fn attach_unit(&mut self, svc: &str) -> bool {
        if self.fail_attach {
            return false;
        }
        self.units.insert(svc.to_string(), UnitState::Other);
        true
    }

    fn teardown(&mut self, step: &TeardownStep) {
        match step {
            TeardownStep::RemoveFile(p) => {
                self.files.remove(p);
            }
            TeardownStep::StopAndReset(n) | TeardownStep::ReleaseUnit(n) => {
                self.stopped.push(n.clone());
                self.units.remove(n);
            }
            TeardownStep::PurgeDir(p) => {
                let p = p.clone();
                self.purge(&p);
            }
        }
    }

    fn refresh_unit(&mut self, svc: &str) -> Option<UnitState> {
        if self.fail_refresh {
            return None;
        }
        self.units.get(svc).copied()
    }
}

fn cfg() -> SideConfig {
    SideConfig {
        side_bin_path: "/agent/bin".to_string(),
        sys_scr_path: "/scr/sys".to_string(),
        side_scr_path: "/scr/side".to_string(),
        sideloader_daemon_jobs_path: "/jobs".to_string(),
        balloon_bin: "/agent/bin/memory-balloon.py".to_string(),
        scr_dev: "nvme0n1".to_string(),
        scr_devnr: (259, 0),
        nr_cpus: 8,
        total_memory: 17179869184,
        total_swap: 8589934592,
        rotational_swap: false,
    }
}

fn defs() -> SideloadDefs {
    SideloadDefs {
        defs: vec![
            (
                "catalog-id-1".to_string(),
                SideloadSpec { args: vec!["burn-cpus.sh".to_string(), "4".to_string()], frozen_exp: 30 },
            ),
            ("stress-id".to_string(), SideloadSpec { args: vec!["stress".to_string()], frozen_exp: 60 }),
            ("empty-id".to_string(), SideloadSpec { args: vec![], frozen_exp: 10 }),
            ("missing-bin".to_string(), SideloadSpec { args: vec!["nope".to_string()], frozen_exp: 10 }),
        ],
    }
}

fn io() -> IoModel {
    IoModel { rbps: 125000000, wbps: 50000000 }
}

fn target(pairs: &[(&str, &str)]) -> Vec<(String, String)> {
    pairs.iter().map(|(a, b)| (a.to_string(), b.to_string())).collect()
}

#[test]
fn end_to_end_single_sysload() {
    let mut host = Host::new(RecHost::new());
    let mut runner = SideRunner::new(cfg());
    runner.apply_sysloads(&mut host, &target(&[("a", "catalog-id-1")]), &defs(), &io(), None).unwrap();
    assert_eq!(runner.sysload_names(), vec!["a".to_string()]);
    assert!(host.inner.dirs.contains("/scr/sys/a"));
    assert_eq!(host.inner.started, vec!["rd-sysload-a.service".to_string()]);
    assert_eq!(host.inner.units.get("rd-sysload-a.service"), Some(&UnitState::Running));

    runner.apply_sysloads(&mut host, &target(&[]), &defs(), &io(), None).unwrap();
    assert!(runner.sysload_names().is_empty());
    assert!(!host.inner.dirs.contains("/scr/sys/a"));
}

#[test]
fn convergence_whatever_came_first() {
    let mut host = Host::new(RecHost::new());
    let mut runner = SideRunner::new(cfg());
    let t1 = target(&[("a", "catalog-id-1"), ("b", "stress-id")]);
    let t2 = target(&[("b", "stress-id"), ("c", "catalog-id-1")]);
    runner.apply_sysloads(&mut host, &t1, &defs(), &io(), None).unwrap();
    runner.apply_sysloads(&mut host, &t2, &defs(), &io(), None).unwrap();
    let mut names = runner.sysload_names();
    names.sort();
    assert_eq!(names, vec!["b".to_string(), "c".to_string()]);
    // "b" was kept, not recreated.
    assert_eq!(host.inner.started.iter().filter(|n| n.as_str() == "rd-sysload-b.service").count(), 1);
    assert!(!host.inner.dirs.contains("/scr/sys/a"));
}

#[test]
fn bad_names_create_nothing() {
    for bad in ["bad name!", "", "a/b", "x\n"] {
        let mut host = Host::new(RecHost::new());
        let mut runner = SideRunner::new(cfg());
        let r = runner.apply_sysloads(&mut host, &target(&[(bad, "catalog-id-1")]), &defs(), &io(), None);
        assert!(matches!(r, Err(SideError::InvalidName(ref n)) if n == bad));
        let r = runner.apply_sideloads(&mut host, &target(&[(bad, "catalog-id-1")]), &defs(), &io(), None);
        assert!(matches!(r, Err(SideError::InvalidName(_))));
        assert!(host.inner.dirs.is_empty());
        assert!(host.inner.started.is_empty());
        assert!(host.inner.files.is_empty());
        assert!(runner.sysload_names().is_empty());
    }
}

#[test]
fn unknown_id_fails_and_keeps_the_rest() {
    let mut host = Host::new(RecHost::new());
    let mut runner = SideRunner::new(cfg());
    runner.apply_sysloads(&mut host, &target(&[("keep", "stress-id")]), &defs(), &io(), None).unwrap();
    let r = runner.apply_sysloads(
        &mut host,
        &target(&[("keep", "stress-id"), ("new", "no-such-id")]),
        &defs(),
        &io(),
        None,
    );
    assert!(matches!(r, Err(SideError::UnknownId(ref i)) if i == "no-such-id"));
    assert_eq!(runner.sysload_names(), vec!["keep".to_string()]);
    assert!(host.inner.dirs.contains("/scr/sys/keep"));
    assert!(!host.inner.dirs.contains("/scr/sys/new"));
}

#[test]
fn deferred_sink_then_teardown_removes_dir() {
    let mut host = Host::new(RecHost::new());
    let mut runner = SideRunner::new(cfg());
    runner.apply_sysloads(&mut host, &target(&[("a", "stress-id"), ("b", "stress-id")]), &defs(), &io(), None).unwrap();
    let mut sink: Vec<Sysload> = Vec::new();
    runner.apply_sysloads(&mut host, &target(&[("b", "stress-id")]), &defs(), &io(), Some(&mut sink)).unwrap();
    assert_eq!(sink.len(), 1);
    assert_eq!(sink[0].name, "a");
    assert!(host.inner.dirs.contains("/scr/sys/a"));
    // A writer keeps the directory busy for a while.
    host.inner.busy_attempts = 500;
    let s = sink.pop().unwrap();
    s.dispose(&mut host);
    assert!(!host.inner.dirs.contains("/scr/sys/a"));
    assert!(host.inner.dirs.contains("/scr/sys/b"));
}

#[test]
fn removal_gives_up_after_budget() {
    let mut host = Host::new(RecHost::new());
    host.inner.dirs.insert("/scr/sys/z".to_string());
    host.inner.busy_attempts = u32::MAX;
    assert_eq!(host.inner.purge("/scr/sys/z"), RemovalStep::TimedOut);
    assert_eq!(host.inner.attempts as u64, REMOVE_BUDGET_MS + 2);
    assert!(host.inner.dirs.contains("/scr/sys/z"));
}

#[test]
fn removal_steps() {
    assert_eq!(removal_step(RemoveAttempt::Removed, 0), RemovalStep::Done);
    assert_eq!(removal_step(RemoveAttempt::NotFound, 0), RemovalStep::Done);
    assert_eq!(removal_step(RemoveAttempt::NotFound, 99999), RemovalStep::Done);
    assert_eq!(removal_step(RemoveAttempt::NotEmpty, 10000), RemovalStep::Retry);
    assert_eq!(removal_step(RemoveAttempt::NotEmpty, 10001), RemovalStep::TimedOut);
    assert_eq!(removal_step(RemoveAttempt::Failed, 0), RemovalStep::GiveUp);
}

#[test]
fn missing_dir_removal_is_silent() {
    let mut host = Host::new(RecHost::new());
    assert_eq!(host.inner.purge("/scr/sys/never"), RemovalStep::Done);
    assert_eq!(host.inner.attempts, 1);
}

#[test]
fn os_errors_classified() {
    assert_eq!(classify_os_error(Some(libc::ENOENT), libc::ENOENT, libc::ENOTEMPTY), RemoveAttempt::NotFound);
    assert_eq!(classify_os_error(Some(libc::ENOTEMPTY), libc::ENOENT, libc::ENOTEMPTY), RemoveAttempt::NotEmpty);
    assert_eq!(classify_os_error(Some(libc::EACCES), libc::ENOENT, libc::ENOTEMPTY), RemoveAttempt::Failed);
    assert_eq!(classify_os_error(None, libc::ENOENT, libc::ENOTEMPTY), RemoveAttempt::Failed);
}

#[test]
fn name_validation() {
    assert!(valid_name("a"));
    assert!(valid_name("Build-linux_2"));
    assert!(!valid_name(""));
    assert!(!valid_name("bad name!"));
    assert!(!valid_name("a\n"));
    assert!(!valid_name("é"));
}

#[test]
fn names_and_paths() {
    assert_eq!(sysload_svc_name("a"), "rd-sysload-a.service");
    assert_eq!(sideload_svc_name("x-1"), "rd-sideload-x-1.service");
    assert_eq!(scr_path("/scr/sys", "a"), "/scr/sys/a");
    assert_eq!(job_path("/jobs", "a"), "/jobs/a.json");
    assert_eq!(decimal(0), "0");
    assert_eq!(decimal(18446744073709551615), "18446744073709551615");
}

#[test]
fn environment_is_fixed() {
    let e = envs(&cfg(), &io());
    assert_eq!(
        e,
        vec![
            "NR_CPUS=8",
            "TOTAL_MEMORY=17179869184",
            "TOTAL_SWAP=8589934592",
            "ROTATIONAL_SWAP=0",
            "IO_DEV=nvme0n1",
            "IO_DEVNR=259:0",
            "IO_RBPS=125000000",
            "IO_WBPS=50000000",
        ]
    );
    let mut c = cfg();
    c.rotational_swap = true;
    assert_eq!(envs(&c, &io())[3], "ROTATIONAL_SWAP=1");
}

#[test]
fn lookup_errors() {
    let d = defs();
    let r = verify_and_lookup_svc("a", &"empty-id".to_string(), &d);
    assert!(matches!(r, Err(SideError::NoCommand(ref i)) if i == "empty-id"));
    let r = verify_and_lookup_svc("a", &"nope".to_string(), &d);
    assert!(matches!(r, Err(SideError::UnknownId(_))));
    let s = verify_and_lookup_svc("a", &"catalog-id-1".to_string(), &d).unwrap();
    assert_eq!(s.args, vec!["burn-cpus.sh".to_string(), "4".to_string()]);
    assert_eq!(s.frozen_exp, 30);
    let r = resolve_binary(s, None);
    assert!(matches!(r, Err(SideError::UnresolvedBinary(ref b)) if b == "burn-cpus.sh"));
    let s = verify_and_lookup_svc("a", &"catalog-id-1".to_string(), &d).unwrap();
    let s = resolve_binary(s, Some("/agent/bin/burn-cpus.sh".to_string())).unwrap();
    assert_eq!(s.args, vec!["/agent/bin/burn-cpus.sh".to_string(), "4".to_string()]);
}

#[test]
fn unresolved_binary_fails_apply() {
    let mut host = Host::new(RecHost::new());
    let mut runner = SideRunner::new(cfg());
    let r = runner.apply_sysloads(&mut host, &target(&[("m", "missing-bin")]), &defs(), &io(), None);
    assert!(matches!(r, Err(SideError::UnresolvedBinary(ref b)) if b == "nope"));
    assert!(host.inner.dirs.is_empty());
}

#[test]
fn host_failures_on_creation() {
    let mut host = Host::new(RecHost::new());
    host.inner.fail_dirs = true;
    let mut runner = SideRunner::new(cfg());
    let r = runner.apply_sysloads(&mut host, &target(&[("a", "stress-id")]), &defs(), &io(), None);
    assert!(matches!(r, Err(SideError::ScratchDir(ref n)) if n == "a"));

    let mut host = Host::new(RecHost::new());
    host.inner.fail_create = true;
    let r = runner.apply_sysloads(&mut host, &target(&[("a", "stress-id")]), &defs(), &io(), None);
    assert!(matches!(r, Err(SideError::Unit(ref n)) if n == "rd-sysload-a.service"));
    assert!(host.inner.dirs.is_empty());
    assert!(runner.sysload_names().is_empty());

    let mut host = Host::new(RecHost::new());
    host.inner.fail_save = true;
    let r = runner.apply_sideloads(&mut host, &target(&[("s", "stress-id")]), &defs(), &io(), None);
    assert!(matches!(r, Err(SideError::JobFile(ref p)) if p == "/jobs/s.json"));
    assert!(host.inner.dirs.is_empty());

    let mut host = Host::new(RecHost::new());
    host.inner.fail_attach = true;
    let r = runner.apply_sideloads(&mut host, &target(&[("s", "stress-id")]), &defs(), &io(), None);
    assert!(matches!(r, Err(SideError::Unit(ref n)) if n == "rd-sideload-s.service"));
    assert!(host.inner.dirs.is_empty());
    assert!(host.inner.files.is_empty());
}

#[test]
fn failed_start_keeps_sysload() {
    let mut host = Host::new(RecHost::new());
    host.inner.fail_start = true;
    let mut runner = SideRunner::new(cfg());
    runner.apply_sysloads(&mut host, &target(&[("a", "stress-id")]), &defs(), &io(), None).unwrap();
    assert_eq!(runner.sysload_names(), vec!["a".to_string()]);
    let rep = runner.report_sysloads(&mut host).unwrap();
    assert_eq!(rep.len(), 1);
    assert_eq!(rep[0].0, "a");
    assert_eq!(rep[0].1.svc.name, "rd-sysload-a.service");
    assert_eq!(rep[0].1.svc.state, UnitState::Failed);
}

#[test]
fn sideload_job_file_and_teardown() {
    let mut host = Host::new(RecHost::new());
    let mut runner = SideRunner::new(cfg());
    runner.apply_sideloads(&mut host, &target(&[("s", "catalog-id-1")]), &defs(), &io(), None).unwrap();
    assert_eq!(runner.sideload_names(), vec!["s".to_string()]);
    assert!(host.inner.dirs.contains("/scr/side/s"));
    let job = host.inner.files.get("/jobs/s.json").unwrap().clone();
    assert!(job.starts_with("s|/agent/bin/burn-cpus.sh 4|NR_CPUS=8 "));
    assert!(job.ends_with("|30|/scr/side/s"));
    // The daemon starts the unit, not the agent.
    assert!(host.inner.started.is_empty());

    let mut sink: Vec<Sideload> = Vec::new();
    runner.apply_sideloads(&mut host, &target(&[]), &defs(), &io(), Some(&mut sink)).unwrap();
    assert!(host.inner.files.contains_key("/jobs/s.json"));
    let steps = sink[0].teardown_steps();
    assert!(matches!(&steps[0], TeardownStep::RemoveFile(p) if p == "/jobs/s.json"));
    assert!(matches!(&steps[1], TeardownStep::StopAndReset(n) if n == "rd-sideload-s.service"));
    assert!(matches!(&steps[2], TeardownStep::PurgeDir(p) if p == "/scr/side/s"));
    sink.pop().unwrap().dispose(&mut host);
    assert!(host.inner.files.is_empty());
    assert!(!host.inner.dirs.contains("/scr/side/s"));
    assert_eq!(host.inner.stopped, vec!["rd-sideload-s.service".to_string()]);
}

#[test]
fn report_fails_fast() {
    let mut host = Host::new(RecHost::new());
    let mut runner = SideRunner::new(cfg());
    runner.apply_sideloads(&mut host, &target(&[("s", "stress-id")]), &defs(), &io(), None).unwrap();
    let rep = runner.report_sideloads(&mut host).unwrap();
    assert_eq!(rep[0].1.svc.state, UnitState::Other);
    host.inner.fail_refresh = true;
    let r = runner.report_sideloads(&mut host);
    assert!(matches!(r, Err(SideError::Refresh(ref n)) if n == "rd-sideload-s.service"));
}

#[test]
fn stop_tears_down_sysloads_only() {
    let mut host = Host::new(RecHost::new());
    let mut runner = SideRunner::new(cfg());
    runner.apply_sysloads(&mut host, &target(&[("a", "stress-id")]), &defs(), &io(), None).unwrap();
    runner.apply_sideloads(&mut host, &target(&[("s", "stress-id")]), &defs(), &io(), None).unwrap();
    runner.stop(&mut host);
    assert!(runner.sysload_names().is_empty());
    assert_eq!(runner.sideload_names(), vec!["s".to_string()]);
    assert!(!host.inner.dirs.contains("/scr/sys/a"));
    assert!(host.inner.dirs.contains("/scr/side/s"));
}

#[test]
fn balloon_zero_after_size_leaves_no_unit() {
    let mut host = Host::new(RecHost::new());
    let mut b = Balloon::new(&cfg(), &mut host);
    assert_eq!(host.inner.stopped, vec![BALLOON_UNIT_NAME.to_string()]);
    b.set_size(&mut host, 1 << 30).unwrap();
    assert_eq!(host.inner.units.get(BALLOON_UNIT_NAME), Some(&UnitState::Running));
    b.set_size(&mut host, 0).unwrap();
    assert!(host.inner.units.get(BALLOON_UNIT_NAME).is_none());
    assert_eq!(host.inner.started.len(), 1);
}

#[test]
fn balloon_same_size_running_is_kept() {
    let mut host = Host::new(RecHost::new());
    let mut b = Balloon::new(&cfg(), &mut host);
    b.set_size(&mut host, 4096).unwrap();
    b.set_size(&mut host, 4096).unwrap();
    assert_eq!(host.inner.started.len(), 1);
}

#[test]
fn balloon_dead_unit_is_recreated() {
    let mut host = Host::new(RecHost::new());
    let mut b = Balloon::new(&cfg(), &mut host);
    b.set_size(&mut host, 4096).unwrap();
    host.inner.units.insert(BALLOON_UNIT_NAME.to_string(), UnitState::Failed);
    b.set_size(&mut host, 4096).unwrap();
    assert_eq!(host.inner.started.len(), 2);
    assert_eq!(host.inner.units.get(BALLOON_UNIT_NAME), Some(&UnitState::Running));
}

#[test]
fn balloon_start_failure_is_fatal() {
    let mut host = Host::new(RecHost::new());
    let mut b = Balloon::new(&cfg(), &mut host);
    host.inner.fail_start = true;
    let r = b.set_size(&mut host, 4096);
    assert!(matches!(r, Err(SideError::Unit(ref n)) if n == BALLOON_UNIT_NAME));
    host.inner.fail_start = false;
    b.set_size(&mut host, 4096).unwrap();
    assert_eq!(host.inner.started.len(), 2);
}

#[test]
fn balloon_plans_and_request() {
    assert_eq!(balloon_plan(4096, true, true, 4096), BalloonPlan::Keep);
    assert_eq!(balloon_plan(4096, true, false, 4096), BalloonPlan::Replace);
    assert_eq!(balloon_plan(4096, true, true, 0), BalloonPlan::Release);
    assert_eq!(balloon_plan(4096, true, true, 8192), BalloonPlan::Replace);
    let req = balloon_unit_request(&"/bin/balloon".to_string(), 1234);
    assert_eq!(req.name, "rd-balloon.service");
    assert_eq!(req.args, vec!["/bin/balloon".to_string(), "1234".to_string()]);
    assert!(req.envs.is_empty());
    assert_eq!(req.slice, "system.slice");
    assert_eq!(req.memory_swap_max, Some(0));
    assert_eq!(req.umask, Some(0o002));
}
