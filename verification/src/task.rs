//! A named task: a set of replicated process units sharing one option
//! record. Operations fan out over the units and report the outside actions
//! (signals, kills, spawns) that the caller must perform.

use vstd::prelude::*;

use crate::options::{options_dup, options_equal, OptionsView, TaskOptions};
use crate::unit::{
    unit_graceful_stopped, unit_new, unit_prepared, unit_spawn_recorded, unit_stopped,
    unit_ticked, ChildPoll, ProcessUnit, SpawnResult, TickAct, UnitView,
};

verus! {

/// An outside action that a library decision asks the embedder to perform.
#[derive(Debug)]
pub enum Action {
    /// Send `sig` to the child `pid` of this unit.
    Signal { task_id: usize, unit_index: usize, pid: u32, sig: i32 },
    /// Kill the child `pid` of this unit and drop its handle.
    Kill { task_id: usize, unit_index: usize, pid: u32 },
    /// Spawn a child with these options for this unit and report the
    /// outcome with `record_spawn`.
    Spawn { task_id: usize, unit_index: usize, options: TaskOptions },
}

/// Mathematical view of [`Action`].
#[verifier::ext_equal]
pub enum ActionView {
    Signal { task_id: usize, unit_index: usize, pid: u32, sig: i32 },
    Kill { task_id: usize, unit_index: usize, pid: u32 },
    Spawn { task_id: usize, unit_index: usize, options: OptionsView },
}

impl View for Action {
    type V = ActionView;

    open spec fn view(&self) -> ActionView {
        match self {
            Action::Signal { task_id, unit_index, pid, sig } => ActionView::Signal {
                task_id: *task_id,
                unit_index: *unit_index,
                pid: *pid,
                sig: *sig,
            },
            Action::Kill { task_id, unit_index, pid } => ActionView::Kill {
                task_id: *task_id,
                unit_index: *unit_index,
                pid: *pid,
            },
            Action::Spawn { task_id, unit_index, options } => ActionView::Spawn {
                task_id: *task_id,
                unit_index: *unit_index,
                options: options@,
            },
        }
    }
}

/// The views of a sequence of actions.
pub open spec fn acts_view(s: Seq<Action>) -> Seq<ActionView> {
    s.map_values(|a: Action| a@)
}

/// The views of a sequence of units.
pub open spec fn units_view(s: Seq<ProcessUnit>) -> Seq<UnitView> {
    s.map_values(|u: ProcessUnit| u@)
}

/// One poll report: what a non-blocking wait said about the child of one
/// unit, identified by its task id and unit index.
#[derive(Clone, Copy)]
pub struct PollEvent {
    pub task_id: usize,
    pub unit_index: usize,
    pub poll: ChildPoll,
}

/// The poll reported for a unit; units nobody reported on count as still
/// running.
pub open spec fn poll_for(polls: Seq<PollEvent>, tid: usize, idx: int) -> ChildPoll
    decreases polls.len(),
{
    if polls.len() == 0 {
        ChildPoll::StillRunning
    } else if polls[0].task_id == tid && polls[0].unit_index == idx {
        polls[0].poll
    } else {
        poll_for(polls.drop_first(), tid, idx)
    }
}

proof fn lemma_poll_for_skip(polls: Seq<PollEvent>, tid: usize, idx: int, i: int)
    requires
        0 <= i <= polls.len(),
        forall|j: int|
            0 <= j < i ==> !(polls[j].task_id == tid && #[trigger] polls[j].unit_index == idx),
    ensures
        poll_for(polls, tid, idx) == poll_for(polls.skip(i), tid, idx),
    decreases i,
{
    if i > 0 {
        lemma_poll_for_skip(polls, tid, idx, i - 1);
        assert(polls.skip(i - 1).len() == polls.len() - i + 1);
        assert(polls.skip(i - 1)[0] == polls[i - 1]);
        assert(!(polls.skip(i - 1)[0].task_id == tid && polls.skip(i - 1)[0].unit_index == idx));
        assert(poll_for(polls.skip(i - 1), tid, idx) == poll_for(
            polls.skip(i - 1).drop_first(),
            tid,
            idx,
        ));
        assert(polls.skip(i - 1).drop_first() =~= polls.skip(i));
    } else {
        assert(polls.skip(0) =~= polls);
    }
}

/// Finds the poll report for one unit; see [`poll_for`].
pub fn find_poll(polls: &Vec<PollEvent>, tid: usize, idx: usize) -> (r: ChildPoll)
    ensures
        r == poll_for(polls@, tid, idx as int),
{
    let n = polls.len();
    for i in 0..n
        invariant
            n == polls@.len(),
            forall|j: int|
                0 <= j < i ==> !(polls@[j].task_id == tid && #[trigger] polls@[j].unit_index
                    == idx),
    {
        let ev = polls[i];
        if ev.task_id == tid && ev.unit_index == idx {
            proof {
                lemma_poll_for_skip(polls@, tid, idx as int, i as int);
                assert(polls@.skip(i as int)[0] == polls@[i as int]);
            }
            return ev.poll;
        }
    }
    proof {
        lemma_poll_for_skip(polls@, tid, idx as int, n as int);
        assert(polls@.skip(n as int).len() == 0);
    }
    ChildPoll::StillRunning
}

/// A named program with replicated process units.
pub struct Task {
    /// Stable identifier, unique for the life of the registry.
    pub id: usize,
    /// The validated options shared by every unit.
    pub options: TaskOptions,
    /// The replica units, in slot order.
    pub processes: Vec<ProcessUnit>,
}

/// Mathematical view of [`Task`].
#[verifier::ext_equal]
pub struct TaskView {
    pub id: usize,
    pub options: OptionsView,
    pub units: Seq<UnitView>,
}

impl View for Task {
    type V = TaskView;

    open spec fn view(&self) -> TaskView {
        TaskView { id: self.id, options: self.options@, units: units_view(self.processes@) }
    }
}

impl TaskView {
    /// Every unit well formed and a non-empty command line.
    pub open spec fn wf(self) -> bool {
        &&& forall|i: int| 0 <= i < self.units.len() ==> (#[trigger] self.units[i]).wf()
        &&& self.options.argv.len() >= 1
    }
}

/// Every retry count within the option record's budget.
pub open spec fn retries_ok(t: TaskView) -> bool {
    forall|i: int|
        0 <= i < t.units.len() ==> (#[trigger] t.units[i]).retries_count <= t.options.retries
}

/// Every live unit's retry count within the budget; enough for a start,
/// which resets the count of every other unit.
pub open spec fn live_retries_ok(t: TaskView) -> bool {
    forall|i: int|
        0 <= i < t.units.len() && (#[trigger] t.units[i]).live() ==> t.units[i].retries_count
            <= t.options.retries
}

impl Task {
    /// Well-formedness of the record itself plus its view.
    pub open spec fn wf(&self) -> bool {
        &&& self.options.wf()
        &&& self@.wf()
    }
}

/// The unit count a start drives the task to: exactly `numprocs`
/// (clamped to what a vector can hold).
pub open spec fn target_units(t: TaskView) -> int {
    if t.options.numprocs as int <= usize::MAX as int {
        t.options.numprocs as int
    } else {
        usize::MAX as int
    }
}

/// Whether a start must spawn a child for slot `i`: every slot not already
/// holding a live child.
pub open spec fn start_spawn_idx(t: TaskView, i: int) -> bool {
    0 <= i < target_units(t) && (i >= t.units.len() || !t.units[i].live())
}

/// The task after `start`: exactly the target number of units. Kept
/// slots hold their unit, dead ones prepared for a fresh spawn and live
/// ones untouched; slots beyond the old length are fresh; units beyond
/// the target are stopped and dropped.
pub open spec fn task_started(t: TaskView, now: u64) -> TaskView {
    TaskView {
        units: Seq::new(
            target_units(t) as nat,
            |i: int|
                if i < t.units.len() {
                    if t.units[i].live() {
                        t.units[i]
                    } else {
                        unit_prepared(t.units[i])
                    }
                } else {
                    unit_new(now)
                },
        ),
        ..t
    }
}

/// The spawn actions of a start, for slots below `n`, in slot order.
pub open spec fn start_actions_upto(t: TaskView, n: int) -> Seq<ActionView>
    decreases n,
{
    if n <= 0 {
        Seq::empty()
    } else {
        start_actions_upto(t, n - 1) + if start_spawn_idx(t, n - 1) {
            seq![
                ActionView::Spawn {
                    task_id: t.id,
                    unit_index: (n - 1) as usize,
                    options: t.options,
                },
            ]
        } else {
            Seq::empty()
        }
    }
}

/// The kill actions of a start, for surplus slots below `n`: every live
/// unit beyond the target is killed before its slot is dropped.
pub open spec fn start_kills_upto(t: TaskView, n: int) -> Seq<ActionView>
    decreases n,
{
    if n <= target_units(t) {
        Seq::empty()
    } else {
        start_kills_upto(t, n - 1) + if t.units[n - 1].live() {
            seq![
                ActionView::Kill {
                    task_id: t.id,
                    unit_index: (n - 1) as usize,
                    pid: t.units[n - 1].handle->Some_0,
                },
            ]
        } else {
            Seq::empty()
        }
    }
}

/// The actions of a start: the kills of the surplus units, then the
/// spawns for every slot without a live child.
pub open spec fn task_start_actions(t: TaskView) -> Seq<ActionView> {
    start_kills_upto(t, t.units.len() as int) + start_actions_upto(t, target_units(t))
}

/// The task after a graceful stop: every live unit turns `Stopping`.
pub open spec fn task_graceful_stopped(t: TaskView, now: u64) -> TaskView {
    TaskView { units: t.units.map_values(|u: UnitView| unit_graceful_stopped(u, now)), ..t }
}

/// The signal actions of a graceful stop, for slots below `n`.
pub open spec fn graceful_actions_upto(t: TaskView, n: int) -> Seq<ActionView>
    decreases n,
{
    if n <= 0 {
        Seq::empty()
    } else {
        graceful_actions_upto(t, n - 1) + if t.units[n - 1].live() {
            seq![
                ActionView::Signal {
                    task_id: t.id,
                    unit_index: (n - 1) as usize,
                    pid: t.units[n - 1].handle->Some_0,
                    sig: t.options.stopsignal,
                },
            ]
        } else {
            Seq::empty()
        }
    }
}

/// The signal actions of a graceful stop.
pub open spec fn task_graceful_actions(t: TaskView) -> Seq<ActionView> {
    graceful_actions_upto(t, t.units.len() as int)
}

/// The task after a forced stop: every unit rests in `Killed` with no
/// handle.
pub open spec fn task_stopped(t: TaskView, now: u64) -> TaskView {
    TaskView { units: t.units.map_values(|u: UnitView| unit_stopped(u, now)), ..t }
}

/// The kill actions of a forced stop, for slots below `n`.
pub open spec fn stop_actions_upto(t: TaskView, n: int) -> Seq<ActionView>
    decreases n,
{
    if n <= 0 {
        Seq::empty()
    } else {
        stop_actions_upto(t, n - 1) + if t.units[n - 1].live() {
            seq![
                ActionView::Kill {
                    task_id: t.id,
                    unit_index: (n - 1) as usize,
                    pid: t.units[n - 1].handle->Some_0,
                },
            ]
        } else {
            Seq::empty()
        }
    }
}

/// The kill actions of a forced stop.
pub open spec fn task_stop_actions(t: TaskView) -> Seq<ActionView> {
    stop_actions_upto(t, t.units.len() as int)
}

/// The task after an update to new options: unchanged when the options are
/// equal in value; otherwise every unit is stopped, the options replaced,
/// and the task started again.
pub open spec fn task_updated(t: TaskView, o: OptionsView, now: u64) -> TaskView {
    if t.options == o {
        t
    } else {
        task_started(TaskView { options: o, ..task_stopped(t, now) }, now)
    }
}

/// The actions of an update: none when the options are equal in value.
pub open spec fn task_update_actions(t: TaskView, o: OptionsView, now: u64) -> Seq<ActionView> {
    if t.options == o {
        Seq::empty()
    } else {
        task_stop_actions(t) + task_start_actions(TaskView { options: o, ..task_stopped(t, now) })
    }
}

/// The task after one health tick, given the poll reports.
pub open spec fn task_ticked(t: TaskView, polls: Seq<PollEvent>, now: u64) -> TaskView {
    TaskView {
        units: Seq::new(
            t.units.len(),
            |i: int| unit_ticked(t.units[i], t.options, poll_for(polls, t.id, i), now).0,
        ),
        ..t
    }
}

/// The actions of one health tick, for slots below `n`: a kill where a stop
/// escalated, a spawn where a respawn was decided.
pub open spec fn tick_actions_upto(t: TaskView, polls: Seq<PollEvent>, now: u64, n: int) -> Seq<
    ActionView,
>
    decreases n,
{
    if n <= 0 {
        Seq::empty()
    } else {
        tick_actions_upto(t, polls, now, n - 1) + match unit_ticked(
            t.units[n - 1],
            t.options,
            poll_for(polls, t.id, n - 1),
            now,
        ).1 {
            TickAct::Nothing => Seq::empty(),
            TickAct::Kill { pid } => seq![
                ActionView::Kill { task_id: t.id, unit_index: (n - 1) as usize, pid },
            ],
            TickAct::Respawn => seq![
                ActionView::Spawn {
                    task_id: t.id,
                    unit_index: (n - 1) as usize,
                    options: t.options,
                },
            ],
        }
    }
}

/// The actions of one health tick.
pub open spec fn task_tick_actions(t: TaskView, polls: Seq<PollEvent>, now: u64) -> Seq<
    ActionView,
> {
    tick_actions_upto(t, polls, now, t.units.len() as int)
}

impl Task {
    /// A fresh task with no units yet.
    pub fn new(id: usize, options: TaskOptions) -> (r: Task)
        requires
            options.wf(),
        ensures
            r@ == (TaskView { id, options: options@, units: Seq::<UnitView>::empty() }),
            r.wf(),
            r.options@ == options@,
    {
        let r = Task { id, options, processes: Vec::new() };
        proof {
            assert(r@.units =~= Seq::<UnitView>::empty());
        }
        r
    }

    /// Drives the replica set to exactly `numprocs` units: surplus units
    /// are stopped and dropped, missing slots filled with fresh units, and
    /// a start begun for every unit without a live child. Returns the
    /// kills and spawns to perform.
    #[verifier::loop_isolation(false)]
    #[verifier::rlimit(50)]
    pub fn start(&mut self, now: u64) -> (acts: Vec<Action>)
        requires
            old(self).wf(),
        ensures
            final(self)@ == task_started(old(self)@, now),
            acts_view(acts@) == task_start_actions(old(self)@),
            final(self).wf(),
            live_retries_ok(old(self)@) ==> retries_ok(final(self)@),
            final(self).id == old(self).id,
    {
        let ghost t0 = self@;
        let target: usize = if self.options.numprocs <= usize::MAX as u64 {
            self.options.numprocs as usize
        } else {
            usize::MAX
        };
        proof {
            assert(target as int == target_units(t0));
        }
        let mut acts: Vec<Action> = Vec::new();
        let n0 = self.processes.len();
        let mut i: usize = target;
        proof {
            assert(acts_view(acts@) =~= start_kills_upto(t0, target as int));
        }
        while i < n0
            invariant
                target <= i,
                i <= n0 || i == target,
                n0 == t0.units.len(),
                self.processes@.len() == n0,
                forall|j: int|
                    0 <= j < target && j < n0 ==> self.processes@[j] == old(self).processes@[j],
                forall|j: int|
                    i <= j < n0 ==> self.processes@[j] == old(self).processes@[j],
                self.id == old(self).id,
                self.options == old(self).options,
                acts_view(acts@) == start_kills_upto(t0, i as int),
            decreases n0 - i,
        {
            proof {
                assert(self.processes@[i as int]@ == t0.units[i as int]);
            }
            let tid = self.id;
            if let Some(pid) = self.processes[i].stop(now) {
                acts.push(Action::Kill { task_id: tid, unit_index: i, pid });
            }
            proof {
                assert(acts_view(acts@) =~= start_kills_upto(t0, i + 1));
            }
            i = i + 1;
        }
        proof {
            if n0 <= target {
                assert(start_kills_upto(t0, n0 as int) == Seq::<ActionView>::empty());
            }
            assert(acts_view(acts@) == start_kills_upto(t0, n0 as int));
        }
        self.processes.truncate(target);
        while self.processes.len() < target
            invariant
                self.processes@.len() <= target,
                n0 < target ==> n0 <= self.processes@.len(),
                n0 >= target ==> self.processes@.len() == target,
                forall|j: int|
                    0 <= j < n0 && j < self.processes@.len() ==> self.processes@[j] == old(
                        self,
                    ).processes@[j],
                forall|j: int|
                    n0 <= j < self.processes@.len() ==> (#[trigger] self.processes@[j])@
                        == unit_new(now),
                self.id == old(self).id,
                self.options == old(self).options,
            decreases target - self.processes.len(),
        {
            self.processes.push(ProcessUnit::new(now));
        }
        let n = self.processes.len();
        proof {
            assert(n == target);
        }
        let ghost kills = acts_view(acts@);
        let mut k: usize = 0;
        proof {
            assert(acts_view(acts@) =~= kills + start_actions_upto(t0, 0));
        }
        while k < n
            invariant
                n == target,
                self.processes@.len() == n,
                k <= n,
                forall|j: int|
                    0 <= j < n0 && j < n ==> (#[trigger] self.processes@[j])@ == (if k as int
                        <= j {
                        t0.units[j]
                    } else if t0.units[j].live() {
                        t0.units[j]
                    } else {
                        unit_prepared(t0.units[j])
                    }),
                forall|j: int|
                    n0 <= j < n ==> (#[trigger] self.processes@[j])@ == unit_new(now),
                self.id == old(self).id,
                self.options == old(self).options,
                acts_view(acts@) == kills + start_actions_upto(t0, k as int),
            decreases n - k,
        {
            let ghost acts_pre = acts@;
            let spawn_needed = self.processes[k].start();
            if spawn_needed {
                acts.push(
                    Action::Spawn {
                        task_id: self.id,
                        unit_index: k,
                        options: options_dup(&self.options),
                    },
                );
                proof {
                    assert(start_spawn_idx(t0, k as int));
                    assert(acts@.last()@ == (ActionView::Spawn {
                        task_id: t0.id,
                        unit_index: k,
                        options: t0.options,
                    }));
                }
            } else {
                proof {
                    assert(!start_spawn_idx(t0, k as int));
                }
            }
            proof {
                assert(start_actions_upto(t0, k + 1) == start_actions_upto(t0, k as int) + (
                if start_spawn_idx(t0, k as int) {
                    seq![
                        ActionView::Spawn { task_id: t0.id, unit_index: k, options: t0.options },
                    ]
                } else {
                    Seq::<ActionView>::empty()
                }));
                if acts@.len() > acts_pre.len() {
                    assert(acts@ == acts_pre.push(acts@.last()));
                    assert(acts_view(acts@) =~= acts_view(acts_pre).push(acts@.last()@));
                }
                assert(acts_view(acts@) =~= kills + start_actions_upto(t0, k + 1));
            }
            k = k + 1;
        }
        proof {
            assert(self@.units =~= task_started(t0, now).units);
            assert(self@ =~= task_started(t0, now));
            assert(acts_view(acts@) =~= task_start_actions(t0));
            assert forall|j: int| 0 <= j < self@.units.len() implies (#[trigger] self@.units[j]).wf()
                by {
                if j < t0.units.len() {
                    assert(t0.units[j].wf());
                }
            }
            if live_retries_ok(t0) {
                assert forall|j: int| 0 <= j < self@.units.len() implies (
                #[trigger] self@.units[j]).retries_count <= self@.options.retries by {
                    if j < t0.units.len() && t0.units[j].live() {
                        assert(t0.units[j].retries_count <= t0.options.retries);
                    }
                }
            }
        }
        acts
    }

    /// Starts the task if its options say to start on load.
    pub fn init(&mut self, now: u64) -> (acts: Vec<Action>)
        requires
            old(self).wf(),
        ensures
            final(self)@ == if old(self)@.options.autostart {
                task_started(old(self)@, now)
            } else {
                old(self)@
            },
            acts_view(acts@) == if old(self)@.options.autostart {
                task_start_actions(old(self)@)
            } else {
                Seq::<ActionView>::empty()
            },
            final(self).wf(),
            retries_ok(old(self)@) ==> retries_ok(final(self)@),
            final(self).id == old(self).id,
    {
        if self.options.autostart {
            self.start(now)
        } else {
            let acts: Vec<Action> = Vec::new();
            proof {
                assert(acts_view(acts@) =~= Seq::<ActionView>::empty());
            }
            acts
        }
    }

    /// Sends the stop signal to every live child; returns the signals to
    /// deliver.
    pub fn graceful_stop(&mut self, now: u64) -> (acts: Vec<Action>)
        requires
            old(self).wf(),
        ensures
            final(self)@ == task_graceful_stopped(old(self)@, now),
            acts_view(acts@) == task_graceful_actions(old(self)@),
            final(self).wf(),
            retries_ok(old(self)@) ==> retries_ok(final(self)@),
            final(self).id == old(self).id,
    {
        let ghost t0 = self@;
        let n = self.processes.len();
        let mut acts: Vec<Action> = Vec::new();
        for i in 0..n
            invariant
                n == self.processes@.len(),
                n == t0.units.len(),
                t0 == old(self)@,
                self.id == old(self).id,
                self.id == t0.id,
                self.options == old(self).options,
                old(self).wf(),
                forall|j: int|
                    0 <= j < n ==> (#[trigger] self.processes@[j])@ == (if i <= j {
                        t0.units[j]
                    } else {
                        unit_graceful_stopped(t0.units[j], now)
                    }),
                acts_view(acts@) == graceful_actions_upto(t0, i as int),
        {
            let sig = self.options.stopsignal;
            let tid = self.id;
            if let Some(pid) = self.processes[i].graceful_stop(now) {
                acts.push(Action::Signal { task_id: tid, unit_index: i, pid, sig });
            }
            proof {
                assert(acts_view(acts@) =~= graceful_actions_upto(t0, i + 1));
            }
        }
        proof {
            assert(self@.units =~= task_graceful_stopped(t0, now).units);
            assert(self@ =~= task_graceful_stopped(t0, now));
        }
        acts
    }

    /// Forcibly stops every unit, killing each live child; returns the
    /// kills to perform.
    pub fn stop(&mut self, now: u64) -> (acts: Vec<Action>)
        requires
            old(self).wf(),
        ensures
            final(self)@ == task_stopped(old(self)@, now),
            acts_view(acts@) == task_stop_actions(old(self)@),
            final(self).wf(),
            retries_ok(old(self)@) ==> retries_ok(final(self)@),
            final(self).id == old(self).id,
    {
        let ghost t0 = self@;
        let n = self.processes.len();
        let mut acts: Vec<Action> = Vec::new();
        for i in 0..n
            invariant
                n == self.processes@.len(),
                n == t0.units.len(),
                t0 == old(self)@,
                self.id == old(self).id,
                self.id == t0.id,
                self.options == old(self).options,
                old(self).wf(),
                forall|j: int|
                    0 <= j < n ==> (#[trigger] self.processes@[j])@ == (if i <= j {
                        t0.units[j]
                    } else {
                        unit_stopped(t0.units[j], now)
                    }),
                acts_view(acts@) == stop_actions_upto(t0, i as int),
        {
            let tid = self.id;
            if let Some(pid) = self.processes[i].stop(now) {
                acts.push(Action::Kill { task_id: tid, unit_index: i, pid });
            }
            proof {
                assert(acts_view(acts@) =~= stop_actions_upto(t0, i + 1));
            }
        }
        proof {
            assert(self@.units =~= task_stopped(t0, now).units);
            assert(self@ =~= task_stopped(t0, now));
        }
        acts
    }

    /// Replaces the options: a no-op when they are equal in value, else a
    /// full stop and restart under the new options.
    pub fn update(&mut self, options: TaskOptions, now: u64) -> (acts: Vec<Action>)
        requires
            old(self).wf(),
            options.wf(),
        ensures
            final(self)@ == task_updated(old(self)@, options@, now),
            acts_view(acts@) == task_update_actions(old(self)@, options@, now),
            final(self).wf(),
            retries_ok(old(self)@) ==> retries_ok(final(self)@),
            final(self).id == old(self).id,
    {
        if options_equal(&self.options, &options) {
            let acts: Vec<Action> = Vec::new();
            proof {
                assert(acts_view(acts@) =~= Seq::<ActionView>::empty());
            }
            return acts;
        }
        let mut acts = self.stop(now);
        self.options = options;
        proof {
            assert(live_retries_ok(self@));
        }
        let mut started = self.start(now);
        let ghost kills = acts@;
        let ghost spawns = started@;
        acts.append(&mut started);
        proof {
            assert(acts@ == kills + spawns);
            assert(acts_view(acts@) =~= acts_view(kills) + acts_view(spawns));
        }
        acts
    }

    /// One health tick fanned out over every unit; see [`task_ticked`].
    pub fn tick(&mut self, polls: &Vec<PollEvent>, now: u64) -> (acts: Vec<Action>)
        requires
            old(self).wf(),
        ensures
            final(self)@ == task_ticked(old(self)@, polls@, now),
            acts_view(acts@) == task_tick_actions(old(self)@, polls@, now),
            final(self).wf(),
            retries_ok(old(self)@) ==> retries_ok(final(self)@),
            final(self).id == old(self).id,
    {
        let ghost t0 = self@;
        let n = self.processes.len();
        let mut acts: Vec<Action> = Vec::new();
        for i in 0..n
            invariant
                n == self.processes@.len(),
                n == t0.units.len(),
                t0 == old(self)@,
                self.id == old(self).id,
                self.id == t0.id,
                self.options == old(self).options,
                old(self).wf(),
                forall|j: int|
                    0 <= j < n ==> (#[trigger] self.processes@[j])@ == (if i <= j {
                        t0.units[j]
                    } else {
                        unit_ticked(t0.units[j], t0.options, poll_for(polls@, t0.id, j), now).0
                    }),
                acts_view(acts@) == tick_actions_upto(t0, polls@, now, i as int),
        {
            let tid = self.id;
            let poll = find_poll(polls, tid, i);
            let act = self.processes[i].tick(&self.options, poll, now);
            match act {
                TickAct::Nothing => {},
                TickAct::Kill { pid } => {
                    acts.push(Action::Kill { task_id: tid, unit_index: i, pid });
                },
                TickAct::Respawn => {
                    acts.push(
                        Action::Spawn {
                            task_id: tid,
                            unit_index: i,
                            options: options_dup(&self.options),
                        },
                    );
                },
            }
            proof {
                assert(acts_view(acts@) =~= tick_actions_upto(t0, polls@, now, i + 1));
            }
        }
        proof {
            assert(self@.units =~= task_ticked(t0, polls@, now).units);
            assert(self@ =~= task_ticked(t0, polls@, now));
        }
        acts
    }

    /// Records the outcome of a spawn that an action asked for.
    pub fn record_spawn(&mut self, unit_index: usize, now: u64, res: SpawnResult)
        requires
            old(self).wf(),
            unit_index < old(self)@.units.len(),
            !old(self)@.units[unit_index as int].live(),
        ensures
            final(self)@ == (TaskView {
                units: old(self)@.units.update(
                    unit_index as int,
                    unit_spawn_recorded(old(self)@.units[unit_index as int], now, res@),
                ),
                ..old(self)@
            }),
            final(self).wf(),
            retries_ok(old(self)@) ==> retries_ok(final(self)@),
            final(self).id == old(self).id,
    {
        let ghost t0 = self@;
        proof {
            assert(t0.units[unit_index as int].wf());
        }
        self.processes[unit_index].record_spawn(now, res);
        proof {
            assert(self@.units =~= t0.units.update(
                unit_index as int,
                unit_spawn_recorded(t0.units[unit_index as int], now, res@),
            ));
            assert(self@ =~= (TaskView {
                units: t0.units.update(
                    unit_index as int,
                    unit_spawn_recorded(t0.units[unit_index as int], now, res@),
                ),
                ..t0
            }));
        }
    }
}

} // verus!
