//! The memory balloon: at most one unit, under a fixed name, that holds a
//! given amount of memory with swap turned off for it.
use vstd::prelude::*;
use vstd::string::*;
use crate::model::{SideConfig, SideError, UnitRequest, UnitState};
use crate::host::unit_view;
use crate::resolve::SYS_SLICE;
use crate::host::{Host, HostOp, SideHost, TeardownStep, UnitView, SIDE_UMASK};
use crate::text::{dec_str, decimal, strs};

verus! {

pub const BALLOON_UNIT_NAME: &'static str = "rd-balloon.service";

/// What `set_size` does with the backing unit.
#[derive(PartialEq, Eq, Structural, Clone, Copy, Debug)]
pub enum BalloonPlan {
    /// The unit runs at the asked size: leave it.
    Keep,
    /// Drop any unit and run none.
    Release,
    /// Drop any unit and start a new one at the asked size.
    Replace,
}

pub open spec fn balloon_plan_of(cur: usize, has_unit: bool, running: bool, size: usize) -> BalloonPlan {
    if size == cur && has_unit && running {
        BalloonPlan::Keep
    } else if size == 0 {
        BalloonPlan::Release
    } else {
        BalloonPlan::Replace
    }
}

/// The plan for asking for `size` when the balloon holds `cur` with a unit
/// (`has_unit`) that a refresh found `running`.
pub fn balloon_plan(cur: usize, has_unit: bool, running: bool, size: usize) -> (r: BalloonPlan)
    ensures
        r == balloon_plan_of(cur, has_unit, running, size),
{
    if size == cur && has_unit && running {
        BalloonPlan::Keep
    } else if size == 0 {
        BalloonPlan::Release
    } else {
        BalloonPlan::Replace
    }
}

/// The unit that holds `size`: the balloon binary with the size as its one
/// argument, no environment, in the system slice, with no swap.
pub fn balloon_unit_request(bin: &String, size: usize) -> (r: UnitRequest)
    ensures
        r.name@ == BALLOON_UNIT_NAME@,
        strs(r.args@) == seq![bin@, dec_str(size as nat)],
        r.envs@.len() == 0,
        r.umask == Some(SIDE_UMASK),
        r.slice@ == SYS_SLICE@,
        r.working_dir is None,
        r.memory_swap_max == Some(0u64),
{
    let args = vec![bin.clone(), decimal(size as u64)];
    assert(strs(args@) =~= seq![bin@, dec_str(size as nat)]);
    UnitRequest {
        name: String::from_str(BALLOON_UNIT_NAME),
        args,
        envs: Vec::new(),
        umask: Some(SIDE_UMASK),
        slice: String::from_str(SYS_SLICE),
        working_dir: None,
        memory_swap_max: Some(0),
    }
}

/// The balloon's unit request for `size`, as the contracts see it.
pub open spec fn balloon_unit_view(bin: Seq<char>, size: usize) -> UnitView {
    UnitView {
        name: BALLOON_UNIT_NAME@,
        args: seq![bin, dec_str(size as nat)],
        envs: seq![],
        umask: Some(SIDE_UMASK),
        slice: SYS_SLICE@,
        working_dir: None,
        memory_swap_max: Some(0u64),
    }
}

/// Whether `set_size` refreshes the unit: only when it holds one at the
/// asked size.
pub open spec fn balloon_checks(cur: usize, has_unit: bool, size: usize) -> bool {
    has_unit && cur == size
}

/// The plan, given what the refresh (if any) gave.
pub open spec fn balloon_plan_after(cur: usize, has_unit: bool, size: usize, refreshed: Option<UnitState>) -> BalloonPlan {
    balloon_plan_of(cur, has_unit, balloon_checks(cur, has_unit, size) && refreshed == Some(UnitState::Running), size)
}

/// What `set_size` asks of the host: a refresh when a unit is held at the
/// asked size; unless it is kept, the release of any unit; for a
/// replacement, the start of a new unit, released again if it did not start.
pub open spec fn balloon_ops(cur: usize, has_unit: bool, size: usize, bin: Seq<char>, refreshed: Option<UnitState>, started: Option<bool>) -> Seq<HostOp> {
    let refresh = if balloon_checks(cur, has_unit, size) {
        seq![HostOp::Refresh(BALLOON_UNIT_NAME@, refreshed)]
    } else {
        seq![]
    };
    let plan = balloon_plan_after(cur, has_unit, size, refreshed);
    let release = if plan != BalloonPlan::Keep && has_unit {
        seq![HostOp::ReleaseUnit(BALLOON_UNIT_NAME@)]
    } else {
        seq![]
    };
    let start = if plan == BalloonPlan::Replace {
        seq![HostOp::StartTransient(balloon_unit_view(bin, size), started)] + if started == Some(false) {
            seq![HostOp::ReleaseUnit(BALLOON_UNIT_NAME@)]
        } else {
            seq![]
        }
    } else {
        seq![]
    };
    refresh + release + start
}

pub struct Balloon {
    bin: String,
    size: usize,
    has_unit: bool,
}

impl Balloon {
    /// The size last set with a unit started for it, or 0.
    pub closed spec fn size(&self) -> usize {
        self.size
    }

    /// Whether a backing unit is held.
    pub closed spec fn has_unit(&self) -> bool {
        self.has_unit
    }

    pub closed spec fn bin(&self) -> Seq<char> {
        self.bin@
    }

    /// A unit is held only for a size above zero.
    pub open spec fn wf(&self) -> bool {
        self.has_unit() ==> self.size() > 0
    }

    /// A balloon holding nothing. A unit left under the balloon's name, by
    /// an earlier run, is stopped and reset first; that this fails is no
    /// error, the unit may not exist.
    pub fn new<H: SideHost>(cfg: &SideConfig, host: &mut Host<H>) -> (r: Balloon)
        ensures
            r.wf(),
            r.size() == 0,
            !r.has_unit(),
            r.bin() == cfg.balloon_bin@,
            final(host).ops() == old(host).ops().push(HostOp::StopAndReset(BALLOON_UNIT_NAME@)),
    {
        host.teardown(&TeardownStep::StopAndReset(String::from_str(BALLOON_UNIT_NAME)));
        Balloon { bin: cfg.balloon_bin.clone(), size: 0, has_unit: false }
    }

    /// Makes the balloon hold `size`. A unit already running at that size
    /// is kept; else any unit is dropped and, for a size above zero, a new
    /// one is started. A failed start is an error, and then no unit is held
    /// and the size stays as it was.
    pub fn set_size<H: SideHost>(&mut self, host: &mut Host<H>, size: usize) -> (r: Result<(), SideError>)
        requires
            old(self).wf(),
        ensures
            final(self).wf(),
            final(self).bin() == old(self).bin(),
            size == 0 ==> r is Ok && final(self).size() == 0 && !final(self).has_unit(),
            r is Ok ==> final(self).size() == size,
            r is Ok && size > 0 ==> final(self).has_unit(),
            r matches Err(e) ==> size > 0 && final(self).size() == old(self).size() && !final(self).has_unit()
                && (e matches SideError::Unit(n) && n@ == BALLOON_UNIT_NAME@),
            exists|refreshed: Option<UnitState>, started: Option<bool>| {
                let plan = balloon_plan_after(old(self).size(), old(self).has_unit(), size, refreshed);
                &&& final(host).ops() == old(host).ops() + #[trigger] balloon_ops(old(self).size(), old(self).has_unit(), size, old(self).bin(), refreshed, started)
                &&& plan == BalloonPlan::Keep ==> r is Ok && final(self).size() == old(self).size() && final(self).has_unit()
                &&& plan == BalloonPlan::Replace ==> (r is Ok <==> started == Some(true))
            },
    {
        let ghost mut refreshed: Option<UnitState> = None;
        let ghost mut started: Option<bool> = None;
        let running = if self.has_unit && self.size == size {
            let st = host.refresh_unit(BALLOON_UNIT_NAME);
            proof { refreshed = st; }
            match st {
                Some(state) => state == UnitState::Running,
                None => false,
            }
        } else {
            false
        };
        assert(running == (balloon_checks(old(self).size, old(self).has_unit, size) && refreshed == Some(UnitState::Running)));
        match balloon_plan(self.size, self.has_unit, running, size) {
            BalloonPlan::Keep => {
                assert(host.ops() =~= old(host).ops() + balloon_ops(old(self).size(), old(self).has_unit(), size, old(self).bin(), refreshed, started));
                Ok(())
            },
            BalloonPlan::Release => {
                self.release(host);
                self.size = 0;
                assert(host.ops() =~= old(host).ops() + balloon_ops(old(self).size(), old(self).has_unit(), size, old(self).bin(), refreshed, started));
                Ok(())
            },
            BalloonPlan::Replace => {
                self.release(host);
                let req = balloon_unit_request(&self.bin, size);
                assert(strs(req.envs@) =~= seq![]);
                assert(unit_view(req) =~= balloon_unit_view(self.bin@, size));
                let st = host.start_transient(&req);
                proof { started = st; }
                match st {
                    Some(true) => {
                        self.size = size;
                        self.has_unit = true;
                        assert(host.ops() =~= old(host).ops() + balloon_ops(old(self).size(), old(self).has_unit(), size, old(self).bin(), refreshed, started));
                        Ok(())
                    },
                    Some(false) => {
                        host.teardown(&TeardownStep::ReleaseUnit(String::from_str(BALLOON_UNIT_NAME)));
                        assert(host.ops() =~= old(host).ops() + balloon_ops(old(self).size(), old(self).has_unit(), size, old(self).bin(), refreshed, started));
                        Err(SideError::Unit(req.name))
                    },
                    None => {
                        assert(host.ops() =~= old(host).ops() + balloon_ops(old(self).size(), old(self).has_unit(), size, old(self).bin(), refreshed, started));
                        Err(SideError::Unit(req.name))
                    },
                }
            },
        }
    }

    fn release<H: SideHost>(&mut self, host: &mut Host<H>)
        ensures
            final(host).ops() == old(host).ops() + if old(self).has_unit {
                seq![HostOp::ReleaseUnit(BALLOON_UNIT_NAME@)]
            } else {
                seq![]
            },
            !final(self).has_unit,
            final(self).size == old(self).size,
            final(self).bin == old(self).bin,
    {
        if self.has_unit {
            host.teardown(&TeardownStep::ReleaseUnit(String::from_str(BALLOON_UNIT_NAME)));
            self.has_unit = false;
        } else {
            assert(host.ops() =~= old(host).ops() + seq![]);
        }
    }
}

/// The balloon's laws: asking for zero starts no unit; asking again for
/// the size that a running unit holds only refreshes it; asking again after
/// the unit died starts a new one.
pub proof fn lemma_balloon_plans(n: usize, cur: usize, has_unit: bool, bin: Seq<char>, refreshed: Option<UnitState>, started: Option<bool>)
    requires
        n > 0,
    ensures
        forall|k: int| 0 <= k < balloon_ops(cur, has_unit, 0, bin, refreshed, started).len()
            ==> !(#[trigger] balloon_ops(cur, has_unit, 0, bin, refreshed, started)[k] is StartTransient),
        balloon_ops(n, true, n, bin, Some(UnitState::Running), started)
            == seq![HostOp::Refresh(BALLOON_UNIT_NAME@, Some(UnitState::Running))],
        refreshed != Some(UnitState::Running) ==> balloon_ops(n, true, n, bin, refreshed, started).contains(
            HostOp::StartTransient(balloon_unit_view(bin, n), started)),
{
    let z = balloon_ops(cur, has_unit, 0, bin, refreshed, started);
    assert(balloon_plan_after(cur, has_unit, 0, refreshed) != BalloonPlan::Replace);
    assert(balloon_ops(n, true, n, bin, Some(UnitState::Running), started)
        =~= seq![HostOp::Refresh(BALLOON_UNIT_NAME@, Some(UnitState::Running))]);
    if refreshed != Some(UnitState::Running) {
        let d = balloon_ops(n, true, n, bin, refreshed, started);
        assert(d[2] == HostOp::StartTransient(balloon_unit_view(bin, n), started));
    }
}

} // verus!
