//! One supervised process unit: the state machine that classifies a child's
//! life cycle and decides on respawn, graceful stop and forced kill.
//!
//! The unit never touches the operating system itself. Callers report what
//! happened (a spawn outcome, a poll of the child) and perform what the unit
//! decides (send a signal, kill, respawn).

use vstd::prelude::*;

use crate::age_secs;
use crate::options::{OptionsView, RestartPolicy, TaskOptions};

verus! {

/// The supervision state of one unit.
pub enum UnitState {
    /// Initial state: never started.
    NotRunning,
    /// The last attempt to spawn a child failed.
    LaunchFailed { at: u64, err: String },
    /// A child is running.
    Running { since: u64, pid: u32 },
    /// The stop signal was sent; waiting for the child to go.
    Stopping { at: u64 },
    /// The child exited by itself with a code.
    Exited { at: u64, code: i32 },
    /// The child was terminated by a signal not sent as a forced stop.
    Stopped { at: u64 },
    /// The child was forcibly killed by an operator action or an escalation.
    Killed { at: u64 },
}

/// Mathematical view of [`UnitState`].
pub enum StateView {
    NotRunning,
    LaunchFailed { at: u64, err: Seq<char> },
    Running { since: u64, pid: u32 },
    Stopping { at: u64 },
    Exited { at: u64, code: i32 },
    Stopped { at: u64 },
    Killed { at: u64 },
}

impl View for UnitState {
    type V = StateView;

    open spec fn view(&self) -> StateView {
        match self {
            UnitState::NotRunning => StateView::NotRunning,
            UnitState::LaunchFailed { at, err } => StateView::LaunchFailed {
                at: *at,
                err: err@,
            },
            UnitState::Running { since, pid } => StateView::Running {
                since: *since,
                pid: *pid,
            },
            UnitState::Stopping { at } => StateView::Stopping { at: *at },
            UnitState::Exited { at, code } => StateView::Exited { at: *at, code: *code },
            UnitState::Stopped { at } => StateView::Stopped { at: *at },
            UnitState::Killed { at } => StateView::Killed { at: *at },
        }
    }
}

/// A state in which an OS child exists.
pub open spec fn state_live(s: StateView) -> bool {
    s is Running || s is Stopping
}

/// One process unit.
pub struct ProcessUnit {
    /// The pid of the live OS child; present exactly when the state is
    /// `Running` or `Stopping`.
    pub handle: Option<u32>,
    /// When the unit was created; never reset.
    pub created_at: u64,
    /// Automatic respawns since the last explicit start.
    pub retries_count: u64,
    /// Current supervision state.
    pub state: UnitState,
}

/// Mathematical view of [`ProcessUnit`].
#[verifier::ext_equal]
pub struct UnitView {
    pub handle: Option<u32>,
    pub created_at: u64,
    pub retries_count: u64,
    pub state: StateView,
}

impl View for ProcessUnit {
    type V = UnitView;

    open spec fn view(&self) -> UnitView {
        UnitView {
            handle: self.handle,
            created_at: self.created_at,
            retries_count: self.retries_count,
            state: self.state@,
        }
    }
}

impl UnitView {
    /// An OS child handle exists if and only if the state is live, and a
    /// running state records the pid of that handle.
    pub open spec fn wf(self) -> bool {
        &&& self.handle is Some <==> state_live(self.state)
        &&& match self.state {
            StateView::Running { pid, .. } => self.handle == Some(pid),
            _ => true,
        }
    }

    /// Whether an OS child exists.
    pub open spec fn live(self) -> bool {
        self.handle is Some
    }
}

/// What an attempt to spawn a child came to.
pub enum SpawnResult {
    /// The child was created with this pid.
    Spawned { pid: u32 },
    /// The child could not be created.
    Failed { err: String },
}

/// Mathematical view of [`SpawnResult`].
pub enum SpawnView {
    Spawned { pid: u32 },
    Failed { err: Seq<char> },
}

impl View for SpawnResult {
    type V = SpawnView;

    open spec fn view(&self) -> SpawnView {
        match self {
            SpawnResult::Spawned { pid } => SpawnView::Spawned { pid: *pid },
            SpawnResult::Failed { err } => SpawnView::Failed { err: err@ },
        }
    }
}

/// What a non-blocking wait on the child reported.
#[derive(Clone, Copy)]
pub enum ChildPoll {
    /// The child has not terminated.
    StillRunning,
    /// The child exited with this code.
    Exited { code: i32 },
    /// The child was terminated by a signal.
    Signaled,
}

/// What one tick of the health sweep asks the caller to do.
pub enum TickAct {
    /// Nothing.
    Nothing,
    /// Kill the child with this pid and drop its handle: the grace period
    /// of a stopping unit has elapsed.
    Kill { pid: u32 },
    /// Spawn a fresh child and report the outcome with `record_spawn`.
    Respawn,
}

/// A fresh unit.
pub open spec fn unit_new(now: u64) -> UnitView {
    UnitView { handle: None, created_at: now, retries_count: 0, state: StateView::NotRunning }
}

/// A unit about to be started: the retry budget is reset.
pub open spec fn unit_prepared(u: UnitView) -> UnitView {
    UnitView { retries_count: 0, ..u }
}

/// The state after a spawn outcome is recorded.
pub open spec fn unit_spawn_recorded(u: UnitView, now: u64, res: SpawnView) -> UnitView {
    match res {
        SpawnView::Spawned { pid } => UnitView {
            handle: Some(pid),
            state: StateView::Running { since: now, pid },
            ..u
        },
        SpawnView::Failed { err } => UnitView {
            handle: None,
            state: StateView::LaunchFailed { at: now, err },
            ..u
        },
    }
}

/// The state after a graceful stop: a live unit turns `Stopping` and keeps
/// its handle; a dead one is untouched.
pub open spec fn unit_graceful_stopped(u: UnitView, now: u64) -> UnitView {
    if u.live() {
        UnitView { state: StateView::Stopping { at: now }, ..u }
    } else {
        u
    }
}

/// The state after a forced stop: whatever the unit was doing, it rests
/// in `Killed` with no handle, until an explicit start.
pub open spec fn unit_stopped(u: UnitView, now: u64) -> UnitView {
    UnitView { handle: None, state: StateView::Killed { at: now }, ..u }
}

/// Whether policy asks for a respawn after this termination. A child gone
/// to a signal is never an expected exit, so `Unexpected` respawns it.
pub open spec fn restart_wanted(policy: RestartPolicy, poll: ChildPoll) -> bool {
    match poll {
        ChildPoll::StillRunning => false,
        ChildPoll::Exited { code } => match policy {
            RestartPolicy::Always => true,
            RestartPolicy::Never => false,
            RestartPolicy::Unexpected(codes) => !codes.contains(code),
        },
        ChildPoll::Signaled => match policy {
            RestartPolicy::Always => true,
            RestartPolicy::Never => false,
            RestartPolicy::Unexpected(_) => true,
        },
    }
}

/// The terminal state a poll classifies into.
pub open spec fn classified(poll: ChildPoll, now: u64) -> StateView {
    match poll {
        ChildPoll::Exited { code } => StateView::Exited { at: now, code },
        _ => StateView::Stopped { at: now },
    }
}

/// One tick of the health sweep over one unit: the next state and what the
/// caller must do. A dead unit is untouched. A live unit whose child has
/// terminated is classified, and respawn is requested when policy asks for
/// it and retries remain. A stopping unit whose grace period has elapsed is
/// killed.
pub open spec fn unit_ticked(u: UnitView, opts: OptionsView, poll: ChildPoll, now: u64) -> (
    UnitView,
    TickAct,
) {
    if !u.live() {
        (u, TickAct::Nothing)
    } else {
        match poll {
            ChildPoll::StillRunning => {
                match u.state {
                    StateView::Stopping { at } => {
                        if age_secs(at, now) >= opts.stoptime_sec {
                            (unit_stopped(u, now), TickAct::Kill { pid: u.handle->Some_0 })
                        } else {
                            (u, TickAct::Nothing)
                        }
                    },
                    _ => (u, TickAct::Nothing),
                }
            },
            _ => {
                let classified_unit = UnitView { handle: None, state: classified(poll, now), ..u };
                if restart_wanted(opts.autorestart, poll) && u.retries_count < opts.retries {
                    (
                        UnitView {
                            retries_count: (u.retries_count + 1) as u64,
                            ..classified_unit
                        },
                        TickAct::Respawn,
                    )
                } else {
                    (classified_unit, TickAct::Nothing)
                }
            },
        }
    }
}

impl ProcessUnit {
    /// A fresh unit: no child, no retries, not running.
    pub fn new(now: u64) -> (r: ProcessUnit)
        ensures
            r@ == unit_new(now),
            r@.wf(),
    {
        ProcessUnit {
            handle: None,
            created_at: now,
            retries_count: 0,
            state: UnitState::NotRunning,
        }
    }

    /// Whether an OS child exists.
    pub fn is_live(&self) -> (r: bool)
        ensures
            r == self@.live(),
    {
        self.handle.is_some()
    }

    /// Begins an explicit start: resets the retry budget and reports whether
    /// a child must be spawned. A live unit is left alone.
    pub fn start(&mut self) -> (spawn_needed: bool)
        ensures
            spawn_needed == !old(self)@.live(),
            final(self)@ == if old(self)@.live() {
                old(self)@
            } else {
                unit_prepared(old(self)@)
            },
            final(self)@.wf() == old(self)@.wf(),
    {
        if self.handle.is_some() {
            return false;
        }
        self.retries_count = 0;
        true
    }

    /// Records the outcome of a spawn requested by `start` or by a
    /// `Respawn` tick action.
    pub fn record_spawn(&mut self, now: u64, res: SpawnResult)
        requires
            !old(self)@.live(),
        ensures
            final(self)@ == unit_spawn_recorded(old(self)@, now, res@),
            old(self)@.wf() ==> final(self)@.wf(),
    {
        match res {
            SpawnResult::Spawned { pid } => {
                self.handle = Some(pid);
                self.state = UnitState::Running { since: now, pid };
            },
            SpawnResult::Failed { err } => {
                self.handle = None;
                self.state = UnitState::LaunchFailed { at: now, err };
            },
        }
    }

    /// Asks the child to stop: reports the pid to signal, and waits for the
    /// child to go (the handle stays). Nothing to do on a dead unit.
    pub fn graceful_stop(&mut self, now: u64) -> (pid: Option<u32>)
        ensures
            final(self)@ == unit_graceful_stopped(old(self)@, now),
            pid == if old(self)@.live() {
                old(self)@.handle
            } else {
                None::<u32>
            },
            old(self)@.wf() ==> final(self)@.wf(),
    {
        match self.handle {
            Some(pid) => {
                self.state = UnitState::Stopping { at: now };
                Some(pid)
            },
            None => None,
        }
    }

    /// Forcibly stops the unit: any state rests in `Killed`, and the pid
    /// to kill is reported where a child existed.
    pub fn stop(&mut self, now: u64) -> (pid: Option<u32>)
        ensures
            final(self)@ == unit_stopped(old(self)@, now),
            pid == old(self)@.handle,
            final(self)@.wf(),
    {
        let pid = self.handle;
        self.handle = None;
        self.state = UnitState::Killed { at: now };
        pid
    }

    /// One tick of the health sweep; see [`unit_ticked`].
    pub fn tick(&mut self, opts: &TaskOptions, poll: ChildPoll, now: u64) -> (act: TickAct)
        ensures
            (final(self)@, act) == unit_ticked(old(self)@, opts@, poll, now),
            old(self)@.wf() ==> final(self)@.wf(),
            old(self)@.retries_count <= opts.retries ==> final(self)@.retries_count
                <= opts.retries,
    {
        let pid = match self.handle {
            Some(pid) => pid,
            None => {
                return TickAct::Nothing;
            },
        };
        match poll {
            ChildPoll::StillRunning => {
                let escalate = match &self.state {
                    UnitState::Stopping { at } => crate::elapsed_secs(*at, now)
                        >= opts.stoptime_sec,
                    _ => false,
                };
                if escalate {
                    self.handle = None;
                    self.state = UnitState::Killed { at: now };
                    TickAct::Kill { pid }
                } else {
                    TickAct::Nothing
                }
            },
            ChildPoll::Exited { code } => {
                self.handle = None;
                self.state = UnitState::Exited { at: now, code };
                let wanted = match &opts.autorestart {
                    crate::options::AutoRestart::Always => true,
                    crate::options::AutoRestart::Never => false,
                    crate::options::AutoRestart::Unexpected(codes) => !crate::options::contains_code(
                        codes,
                        code,
                    ),
                };
                if wanted && self.retries_count < opts.retries {
                    self.retries_count = self.retries_count + 1;
                    TickAct::Respawn
                } else {
                    TickAct::Nothing
                }
            },
            ChildPoll::Signaled => {
                self.handle = None;
                self.state = UnitState::Stopped { at: now };
                let wanted = match &opts.autorestart {
                    crate::options::AutoRestart::Always => true,
                    crate::options::AutoRestart::Never => false,
                    crate::options::AutoRestart::Unexpected(_) => true,
                };
                if wanted && self.retries_count < opts.retries {
                    self.retries_count = self.retries_count + 1;
                    TickAct::Respawn
                } else {
                    TickAct::Nothing
                }
            },
        }
    }
}

} // verus!
