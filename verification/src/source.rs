//! One configuration source: a named set of tasks loaded from one path,
//! and the reconciliation that applies a fresh configuration to it while
//! preserving the identity of tasks whose name survives.

use vstd::prelude::*;

use crate::options::{OptionsView, TaskOptions};
use crate::task::{
    acts_view, task_started, task_start_actions, task_stopped, task_stop_actions, task_ticked,
    task_tick_actions, task_updated, task_update_actions, retries_ok, Action, ActionView,
    PollEvent, Task, TaskView,
};
use crate::text::str_eq;

verus! {

/// The views of a named task list.
pub open spec fn tasks_view(s: Seq<(String, Task)>) -> Seq<(Seq<char>, TaskView)> {
    s.map_values(|p: (String, Task)| (p.0@, p.1@))
}

/// The views of a configuration list.
pub open spec fn cfg_view(s: Seq<(String, TaskOptions)>) -> Seq<(Seq<char>, OptionsView)> {
    s.map_values(|p: (String, TaskOptions)| (p.0@, p.1@))
}

/// No two entries share a name.
pub open spec fn unique_names<T>(ts: Seq<(Seq<char>, T)>) -> bool {
    forall|i: int, j: int| 0 <= i < j < ts.len() ==> ts[i].0 != ts[j].0
}

/// A fresh task right after load: started at once when `autostart` says so.
pub open spec fn task_inited(t: TaskView, now: u64) -> TaskView {
    if t.options.autostart {
        task_started(t, now)
    } else {
        t
    }
}

/// The actions of initialising a fresh task.
pub open spec fn task_init_actions(t: TaskView) -> Seq<ActionView> {
    if t.options.autostart {
        task_start_actions(t)
    } else {
        Seq::empty()
    }
}

/// Every task stopped.
pub open spec fn tasks_stopped(ts: Seq<(Seq<char>, TaskView)>, now: u64) -> Seq<
    (Seq<char>, TaskView),
> {
    ts.map_values(|p: (Seq<char>, TaskView)| (p.0, task_stopped(p.1, now)))
}

/// The kill actions of stopping the first `n` tasks.
pub open spec fn tasks_stop_actions_upto(ts: Seq<(Seq<char>, TaskView)>, n: int) -> Seq<
    ActionView,
>
    decreases n,
{
    if n <= 0 {
        Seq::empty()
    } else {
        tasks_stop_actions_upto(ts, n - 1) + task_stop_actions(ts[n - 1].1)
    }
}

/// The kill actions of stopping every task.
pub open spec fn tasks_stop_actions(ts: Seq<(Seq<char>, TaskView)>) -> Seq<ActionView> {
    tasks_stop_actions_upto(ts, ts.len() as int)
}

/// Every task started.
pub open spec fn tasks_started(ts: Seq<(Seq<char>, TaskView)>, now: u64) -> Seq<
    (Seq<char>, TaskView),
> {
    ts.map_values(|p: (Seq<char>, TaskView)| (p.0, task_started(p.1, now)))
}

/// The spawn actions of starting the first `n` tasks.
pub open spec fn tasks_start_actions_upto(ts: Seq<(Seq<char>, TaskView)>, n: int) -> Seq<
    ActionView,
>
    decreases n,
{
    if n <= 0 {
        Seq::empty()
    } else {
        tasks_start_actions_upto(ts, n - 1) + task_start_actions(ts[n - 1].1)
    }
}

/// The spawn actions of starting every task.
pub open spec fn tasks_start_actions(ts: Seq<(Seq<char>, TaskView)>) -> Seq<ActionView> {
    tasks_start_actions_upto(ts, ts.len() as int)
}

/// Every task ticked.
pub open spec fn tasks_ticked(
    ts: Seq<(Seq<char>, TaskView)>,
    polls: Seq<PollEvent>,
    now: u64,
) -> Seq<(Seq<char>, TaskView)> {
    ts.map_values(|p: (Seq<char>, TaskView)| (p.0, task_ticked(p.1, polls, now)))
}

/// The actions of ticking the first `n` tasks.
pub open spec fn tasks_tick_actions_upto(
    ts: Seq<(Seq<char>, TaskView)>,
    polls: Seq<PollEvent>,
    now: u64,
    n: int,
) -> Seq<ActionView>
    decreases n,
{
    if n <= 0 {
        Seq::empty()
    } else {
        tasks_tick_actions_upto(ts, polls, now, n - 1) + task_tick_actions(
            ts[n - 1].1,
            polls,
            now,
        )
    }
}

/// The actions of ticking every task.
pub open spec fn tasks_tick_actions(
    ts: Seq<(Seq<char>, TaskView)>,
    polls: Seq<PollEvent>,
    now: u64,
) -> Seq<ActionView> {
    tasks_tick_actions_upto(ts, polls, now, ts.len() as int)
}

/// The index of the first task with this name.
pub open spec fn find_name(ts: Seq<(Seq<char>, TaskView)>, name: Seq<char>) -> Option<int>
    decreases ts.len(),
{
    if ts.len() == 0 {
        None
    } else if ts[0].0 == name {
        Some(0)
    } else {
        match find_name(ts.drop_first(), name) {
            Some(i) => Some(i + 1),
            None => None,
        }
    }
}

pub proof fn lemma_find_name_skip(ts: Seq<(Seq<char>, TaskView)>, name: Seq<char>, i: int)
    requires
        0 <= i <= ts.len(),
        forall|j: int| 0 <= j < i ==> (#[trigger] ts[j]).0 != name,
    ensures
        find_name(ts, name) == match find_name(ts.skip(i), name) {
            Some(j) => Some(i + j),
            None => None::<int>,
        },
    decreases i,
{
    if i > 0 {
        lemma_find_name_skip(ts, name, i - 1);
        assert(ts.skip(i - 1).len() == ts.len() - i + 1);
        assert(ts.skip(i - 1)[0] == ts[i - 1]);
        assert(ts.skip(i - 1).drop_first() =~= ts.skip(i));
    } else {
        assert(ts.skip(0) =~= ts);
    }
}

/// A found index names the task searched for.
pub proof fn lemma_find_name_found(ts: Seq<(Seq<char>, TaskView)>, name: Seq<char>)
    ensures
        find_name(ts, name) matches Some(i) ==> 0 <= i < ts.len() && ts[i].0 == name,
    decreases ts.len(),
{
    if ts.len() > 0 && ts[0].0 != name {
        lemma_find_name_found(ts.drop_first(), name);
        if find_name(ts.drop_first(), name) is Some {
            let j = find_name(ts.drop_first(), name)->Some_0;
            assert(ts.drop_first()[j] == ts[j + 1]);
        }
    }
}

/// The index of the first match; see [`find_name`].
pub fn find_task_name(tasks: &Vec<(String, Task)>, name: &str) -> (r: Option<usize>)
    ensures
        match r {
            Some(i) => i < tasks@.len() && find_name(tasks_view(tasks@), name@) == Some(i as int),
            None => find_name(tasks_view(tasks@), name@) is None,
        },
{
    let n = tasks.len();
    for i in 0..n
        invariant
            n == tasks@.len(),
            forall|j: int| 0 <= j < i ==> (#[trigger] tasks_view(tasks@)[j]).0 != name@,
    {
        if str_eq(tasks[i].0.as_str(), name) {
            proof {
                lemma_find_name_skip(tasks_view(tasks@), name@, i as int);
                assert(tasks_view(tasks@).skip(i as int)[0] == tasks_view(tasks@)[i as int]);
            }
            return Some(i);
        }
        proof {
            assert((tasks_view(tasks@)[i as int]).0 == tasks@[i as int].0@);
        }
    }
    proof {
        lemma_find_name_skip(tasks_view(tasks@), name@, n as int);
        assert(tasks_view(tasks@).skip(n as int).len() == 0);
    }
    None
}

/// Removing an entry keeps the remaining names unique.
pub proof fn lemma_unique_names_remove(ts: Seq<(Seq<char>, TaskView)>, i: int)
    requires
        unique_names(ts),
        0 <= i < ts.len(),
    ensures
        unique_names(ts.remove(i)),
{
    let r = ts.remove(i);
    assert forall|a: int, b: int| 0 <= a < b < r.len() implies r[a].0 != r[b].0 by {
        let oa = if a < i {
            a
        } else {
            a + 1
        };
        let ob = if b < i {
            b
        } else {
            b + 1
        };
        assert(r[a] == ts[oa]);
        assert(r[b] == ts[ob]);
    }
}

/// What a reconciliation produces: the new task list, the actions to
/// perform, and the id counter after the new tasks took their ids.
#[verifier::ext_equal]
pub struct Reconciled {
    pub tasks: Seq<(Seq<char>, TaskView)>,
    pub acts: Seq<ActionView>,
    pub next_id: usize,
}

/// The next id counter value; saturates where an execution would forbid
/// the overflow by precondition.
pub open spec fn bump_id(n: usize) -> usize {
    if n < usize::MAX {
        (n + 1) as usize
    } else {
        n
    }
}

/// Reconciliation of a fresh configuration against a task list: a name
/// present in both keeps its task, updated to the new options; a new name
/// gets a fresh task, initialised at once; every task whose name is gone
/// is stopped and dropped.
pub open spec fn file_reconciled(
    ts: Seq<(Seq<char>, TaskView)>,
    cfg: Seq<(Seq<char>, OptionsView)>,
    now: u64,
    next_id: usize,
) -> Reconciled
    decreases cfg.len(),
{
    if cfg.len() == 0 {
        Reconciled { tasks: Seq::empty(), acts: tasks_stop_actions(ts), next_id }
    } else {
        let name = cfg[0].0;
        let opts = cfg[0].1;
        match find_name(ts, name) {
            Some(i) => {
                let t = ts[i].1;
                let rest = file_reconciled(ts.remove(i), cfg.drop_first(), now, next_id);
                Reconciled {
                    tasks: seq![(name, task_updated(t, opts, now))] + rest.tasks,
                    acts: task_update_actions(t, opts, now) + rest.acts,
                    next_id: rest.next_id,
                }
            },
            None => {
                let fresh = TaskView { id: next_id, options: opts, units: Seq::empty() };
                let rest = file_reconciled(ts, cfg.drop_first(), now, bump_id(next_id));
                Reconciled {
                    tasks: seq![(name, task_inited(fresh, now))] + rest.tasks,
                    acts: task_init_actions(fresh) + rest.acts,
                    next_id: rest.next_id,
                }
            },
        }
    }
}

/// One configuration source.
pub struct TaskFile {
    /// The canonical path that identifies the source.
    pub path: String,
    /// The tasks of the source, keyed by unique name, in configuration
    /// order.
    pub tasks: Vec<(String, Task)>,
}

/// Mathematical view of [`TaskFile`].
#[verifier::ext_equal]
pub struct FileView {
    pub path: Seq<char>,
    pub tasks: Seq<(Seq<char>, TaskView)>,
}

impl View for TaskFile {
    type V = FileView;

    open spec fn view(&self) -> FileView {
        FileView { path: self.path@, tasks: tasks_view(self.tasks@) }
    }
}

impl FileView {
    /// Unique names; every task well formed and within its retry budget.
    pub open spec fn wf(self) -> bool {
        &&& unique_names(self.tasks)
        &&& forall|i: int| 0 <= i < self.tasks.len() ==> (#[trigger] self.tasks[i]).1.wf()
        &&& forall|i: int| 0 <= i < self.tasks.len() ==> retries_ok((#[trigger] self.tasks[i]).1)
    }
}

impl TaskFile {
    /// The view well formed, and every option record well formed.
    pub open spec fn wf(&self) -> bool {
        &&& self@.wf()
        &&& forall|i: int| 0 <= i < self.tasks@.len() ==> (#[trigger] self.tasks@[i]).1.wf()
    }

    /// Starts every task; returns the spawns to perform.
    pub fn start(&mut self, now: u64) -> (acts: Vec<Action>)
        requires
            old(self).wf(),
        ensures
            final(self)@.path == old(self)@.path,
            final(self)@.tasks == tasks_started(old(self)@.tasks, now),
            acts_view(acts@) == tasks_start_actions(old(self)@.tasks),
            final(self).wf(),
            tasks_ids_same(old(self)@.tasks, final(self)@.tasks),
    {
        let ghost ts0 = self@.tasks;
        let n = self.tasks.len();
        let mut acts: Vec<Action> = Vec::new();
        for i in 0..n
            invariant
                n == self.tasks@.len(),
                n == ts0.len(),
                ts0 == old(self)@.tasks,
                self.path == old(self).path,
                old(self).wf(),
                forall|j: int|
                    0 <= j < n ==> (#[trigger] self.tasks@[j]).0 == old(self).tasks@[j].0,
                forall|j: int|
                    0 <= j < n ==> (#[trigger] self.tasks@[j]).1.wf() && (self.tasks@[j]).1@
                        == (if i <= j {
                        ts0[j].1
                    } else {
                        task_started(ts0[j].1, now)
                    }),
                forall|j: int| 0 <= j < i ==> retries_ok((#[trigger] tasks_view(self.tasks@)[j]).1),
                acts_view(acts@) == tasks_start_actions_upto(ts0, i as int),
        {
            proof {
                assert(ts0[i as int].1 == tasks_view(old(self).tasks@)[i as int].1);
            }
            let mut a = self.tasks[i].1.start(now);
            acts.append(&mut a);
            proof {
                assert(acts_view(acts@) =~= tasks_start_actions_upto(ts0, i + 1));
            }
        }
        proof {
            assert(self@.tasks =~= tasks_started(ts0, now));
            assert(tasks_ids_same(ts0, self@.tasks));
        }
        acts
    }

    /// Forcibly stops every task; returns the kills to perform.
    pub fn stop(&mut self, now: u64) -> (acts: Vec<Action>)
        requires
            old(self).wf(),
        ensures
            final(self)@.path == old(self)@.path,
            final(self)@.tasks == tasks_stopped(old(self)@.tasks, now),
            acts_view(acts@) == tasks_stop_actions(old(self)@.tasks),
            final(self).wf(),
            tasks_ids_same(old(self)@.tasks, final(self)@.tasks),
    {
        let ghost ts0 = self@.tasks;
        let n = self.tasks.len();
        let mut acts: Vec<Action> = Vec::new();
        for i in 0..n
            invariant
                n == self.tasks@.len(),
                n == ts0.len(),
                ts0 == old(self)@.tasks,
                self.path == old(self).path,
                old(self).wf(),
                forall|j: int|
                    0 <= j < n ==> (#[trigger] self.tasks@[j]).0 == old(self).tasks@[j].0,
                forall|j: int|
                    0 <= j < n ==> (#[trigger] self.tasks@[j]).1.wf() && (self.tasks@[j]).1@
                        == (if i <= j {
                        ts0[j].1
                    } else {
                        task_stopped(ts0[j].1, now)
                    }),
                forall|j: int| 0 <= j < i ==> retries_ok((#[trigger] tasks_view(self.tasks@)[j]).1),
                acts_view(acts@) == tasks_stop_actions_upto(ts0, i as int),
        {
            proof {
                assert(ts0[i as int].1 == tasks_view(old(self).tasks@)[i as int].1);
            }
            let mut a = self.tasks[i].1.stop(now);
            acts.append(&mut a);
            proof {
                assert(acts_view(acts@) =~= tasks_stop_actions_upto(ts0, i + 1));
            }
        }
        proof {
            assert(self@.tasks =~= tasks_stopped(ts0, now));
            assert(tasks_ids_same(ts0, self@.tasks));
        }
        acts
    }

    /// Ticks every task; returns the kills and spawns the sweep decided.
    pub fn tick(&mut self, polls: &Vec<PollEvent>, now: u64) -> (acts: Vec<Action>)
        requires
            old(self).wf(),
        ensures
            final(self)@.path == old(self)@.path,
            final(self)@.tasks == tasks_ticked(old(self)@.tasks, polls@, now),
            acts_view(acts@) == tasks_tick_actions(old(self)@.tasks, polls@, now),
            final(self).wf(),
            tasks_ids_same(old(self)@.tasks, final(self)@.tasks),
    {
        let ghost ts0 = self@.tasks;
        let n = self.tasks.len();
        let mut acts: Vec<Action> = Vec::new();
        for i in 0..n
            invariant
                n == self.tasks@.len(),
                n == ts0.len(),
                ts0 == old(self)@.tasks,
                self.path == old(self).path,
                old(self).wf(),
                forall|j: int|
                    0 <= j < n ==> (#[trigger] self.tasks@[j]).0 == old(self).tasks@[j].0,
                forall|j: int|
                    0 <= j < n ==> (#[trigger] self.tasks@[j]).1.wf() && (self.tasks@[j]).1@
                        == (if i <= j {
                        ts0[j].1
                    } else {
                        task_ticked(ts0[j].1, polls@, now)
                    }),
                forall|j: int| 0 <= j < i ==> retries_ok((#[trigger] tasks_view(self.tasks@)[j]).1),
                acts_view(acts@) == tasks_tick_actions_upto(ts0, polls@, now, i as int),
        {
            proof {
                assert(ts0[i as int].1 == tasks_view(old(self).tasks@)[i as int].1);
            }
            let mut a = self.tasks[i].1.tick(polls, now);
            acts.append(&mut a);
            proof {
                assert(acts_view(acts@) =~= tasks_tick_actions_upto(ts0, polls@, now, i + 1));
            }
        }
        proof {
            assert(self@.tasks =~= tasks_ticked(ts0, polls@, now));
            assert(tasks_ids_same(ts0, self@.tasks));
        }
        acts
    }

    /// Applies a fresh configuration; see [`file_reconciled`]. Takes the
    /// registry's id counter to number the new tasks.
    #[verifier::loop_isolation(false)]
    #[verifier::rlimit(60)]
    pub fn update(
        &mut self,
        cfg: &Vec<(String, TaskOptions)>,
        next_id: &mut usize,
        now: u64,
    ) -> (acts: Vec<Action>)
        requires
            old(self).wf(),
            unique_names(cfg_view(cfg@)),
            forall|i: int| 0 <= i < cfg@.len() ==> (#[trigger] cfg@[i]).1.wf(),
            *old(next_id) + cfg@.len() <= usize::MAX,
        ensures
            final(self)@.path == old(self)@.path,
            final(self)@.tasks == file_reconciled(
                old(self)@.tasks,
                cfg_view(cfg@),
                now,
                *old(next_id),
            ).tasks,
            acts_view(acts@) == file_reconciled(
                old(self)@.tasks,
                cfg_view(cfg@),
                now,
                *old(next_id),
            ).acts,
            *final(next_id) == file_reconciled(
                old(self)@.tasks,
                cfg_view(cfg@),
                now,
                *old(next_id),
            ).next_id,
            *old(next_id) <= *final(next_id) <= *old(next_id) + cfg@.len(),
            final(self).wf(),
    {
        let ghost ts0 = self@.tasks;
        let ghost cfg0 = cfg_view(cfg@);
        let ghost nid0 = *next_id;
        let ghost fr_total = file_reconciled(ts0, cfg0, now, nid0);
        let mut new_tasks: Vec<(String, Task)> = Vec::new();
        let mut acts: Vec<Action> = Vec::new();
        let ncfg = cfg.len();
        proof {
            assert(cfg0.skip(0) =~= cfg0);
            assert(tasks_view(new_tasks@) + fr_total.tasks =~= fr_total.tasks);
            assert(acts_view(acts@) + fr_total.acts =~= fr_total.acts);
        }
        for i in 0..ncfg
            invariant
                nid0 <= *next_id,
                *next_id - nid0 <= i,
                self.path == old(self).path,
                self.wf(),
                new_tasks@.len() == i,
                forall|k: int|
                    0 <= k < new_tasks@.len() ==> (#[trigger] new_tasks@[k]).1.wf() && retries_ok(
                        new_tasks@[k].1@,
                    ) && new_tasks@[k].0@ == cfg0[k].0,
                fr_total == (Reconciled {
                    tasks: tasks_view(new_tasks@) + file_reconciled(
                        tasks_view(self.tasks@),
                        cfg0.skip(i as int),
                        now,
                        *next_id,
                    ).tasks,
                    acts: acts_view(acts@) + file_reconciled(
                        tasks_view(self.tasks@),
                        cfg0.skip(i as int),
                        now,
                        *next_id,
                    ).acts,
                    next_id: file_reconciled(
                        tasks_view(self.tasks@),
                        cfg0.skip(i as int),
                        now,
                        *next_id,
                    ).next_id,
                }),
        {
            let ghost tsc = tasks_view(self.tasks@);
            let ghost nidc = *next_id;
            let ghost newv0 = new_tasks@;
            let ghost actsv0 = acts@;
            proof {
                assert(cfg0.skip(i as int)[0] == cfg0[i as int]);
                assert(cfg0.skip(i as int).drop_first() =~= cfg0.skip(i + 1));
                assert(cfg0[i as int].0 == cfg@[i as int].0@);
                assert(cfg0[i as int].1 == cfg@[i as int].1@);
            }
            let ghost fr_prev = file_reconciled(tsc, cfg0.skip(i as int), now, nidc);
            let opts = crate::options::options_dup(&cfg[i].1);
            match find_task_name(&self.tasks, cfg[i].0.as_str()) {
                Some(idx) => {
                    proof {
                        lemma_find_name_found(tsc, cfg0[i as int].0);
                        assert(tsc[idx as int].0 == cfg0[i as int].0);
                    }
                    let ghost tse = self.tasks@;
                    let mut pair = self.tasks.remove(idx);
                    proof {
                        assert(self.tasks@ == tse.remove(idx as int));
                        assert(tasks_view(self.tasks@) =~= tsc.remove(idx as int));
                        lemma_unique_names_remove(tsc, idx as int);
                        assert forall|k: int|
                            0 <= k < self.tasks@.len() implies ((#[trigger] self.tasks@[k]).1.wf()
                            && tasks_view(self.tasks@)[k].1.wf() && retries_ok(
                            tasks_view(self.tasks@)[k].1,
                        )) by {
                            if k < idx {
                                assert(self.tasks@[k] == tse[k]);
                                assert(tasks_view(self.tasks@)[k] == tsc[k]);
                            } else {
                                assert(self.tasks@[k] == tse[k + 1]);
                                assert(tasks_view(self.tasks@)[k] == tsc[k + 1]);
                            }
                        }
                        assert(pair.1@ == tsc[idx as int].1);
                        assert(pair.1.wf());
                        assert(retries_ok(pair.1@));
                    }
                    let mut a = pair.1.update(opts, now);
                    let ghost av = a@;
                    acts.append(&mut a);
                    new_tasks.push(pair);
                    proof {
                        let fr_next = file_reconciled(
                            tasks_view(self.tasks@),
                            cfg0.skip(i + 1),
                            now,
                            *next_id,
                        );
                        assert(fr_prev == (Reconciled {
                            tasks: seq![(cfg0[i as int].0, new_tasks@.last().1@)] + fr_next.tasks,
                            acts: acts_view(av) + fr_next.acts,
                            next_id: fr_next.next_id,
                        }));
                        assert(tasks_view(new_tasks@) =~= tasks_view(newv0).push(
                            (cfg0[i as int].0, new_tasks@.last().1@),
                        ));
                        assert(tasks_view(new_tasks@) + fr_next.tasks =~= tasks_view(newv0)
                            + fr_prev.tasks);
                        assert(acts_view(acts@) =~= acts_view(actsv0) + acts_view(av));
                        assert(acts_view(acts@) + fr_next.acts =~= acts_view(actsv0)
                            + fr_prev.acts);
                    }
                },
                None => {
                    let id = *next_id;
                    *next_id = *next_id + 1;
                    let mut t = Task::new(id, opts);
                    let mut a = t.init(now);
                    let ghost av = a@;
                    acts.append(&mut a);
                    new_tasks.push((cfg[i].0.clone(), t));
                    proof {
                        let fr_next = file_reconciled(
                            tasks_view(self.tasks@),
                            cfg0.skip(i + 1),
                            now,
                            *next_id,
                        );
                        assert(bump_id(nidc) == *next_id);
                        assert(retries_ok(new_tasks@.last().1@));
                        assert(fr_prev == (Reconciled {
                            tasks: seq![(cfg0[i as int].0, new_tasks@.last().1@)] + fr_next.tasks,
                            acts: acts_view(av) + fr_next.acts,
                            next_id: fr_next.next_id,
                        }));
                        assert(tasks_view(new_tasks@) =~= tasks_view(newv0).push(
                            (cfg0[i as int].0, new_tasks@.last().1@),
                        ));
                        assert(tasks_view(new_tasks@) + fr_next.tasks =~= tasks_view(newv0)
                            + fr_prev.tasks);
                        assert(acts_view(acts@) =~= acts_view(actsv0) + acts_view(av));
                        assert(acts_view(acts@) + fr_next.acts =~= acts_view(actsv0)
                            + fr_prev.acts);
                    }
                },
            }
        }
        proof {
            assert(cfg0.skip(ncfg as int).len() == 0);
        }
        let ghost leftover = tasks_view(self.tasks@);
        let ghost acts_mid = acts_view(acts@);
        proof {
            assert(fr_total.acts == acts_mid + tasks_stop_actions(leftover));
            assert(fr_total.tasks == tasks_view(new_tasks@) + Seq::<(
                Seq<char>,
                TaskView,
            )>::empty());
            assert(fr_total.tasks =~= tasks_view(new_tasks@));
            assert(fr_total.next_id == *next_id);
        }
        let nleft = self.tasks.len();
        for j in 0..nleft
            invariant
                nleft == self.tasks@.len(),
                self.path == old(self).path,
                forall|k: int|
                    0 <= k < nleft ==> (#[trigger] self.tasks@[k]).1.wf() && (self.tasks@[k]).1@
                        == (if j <= k {
                        leftover[k].1
                    } else {
                        task_stopped(leftover[k].1, now)
                    }),
                acts_view(acts@) == acts_mid + tasks_stop_actions_upto(leftover, j as int),
        {
            let ghost actsv0 = acts@;
            proof {
                assert(leftover[j as int].1 == tasks_view(self.tasks@)[j as int].1);
            }
            let mut a = self.tasks[j].1.stop(now);
            let ghost av = a@;
            acts.append(&mut a);
            proof {
                assert(acts_view(acts@) =~= acts_view(actsv0) + acts_view(av));
                assert(acts_view(acts@) =~= acts_mid + tasks_stop_actions_upto(leftover, j + 1));
            }
        }
        self.tasks = new_tasks;
        proof {
            assert(acts_view(acts@) =~= acts_mid + tasks_stop_actions(leftover));
            assert forall|a: int, b: int|
                0 <= a < b < self@.tasks.len() implies self@.tasks[a].0 != self@.tasks[b].0 by {
                assert(self@.tasks[a].0 == cfg0[a].0);
                assert(self@.tasks[b].0 == cfg0[b].0);
            }
        }
        acts
    }
}

/// Same names and ids in the same order: what every fan-out operation
/// preserves.
pub open spec fn tasks_ids_same(
    a: Seq<(Seq<char>, TaskView)>,
    b: Seq<(Seq<char>, TaskView)>,
) -> bool {
    &&& a.len() == b.len()
    &&& forall|i: int|
        0 <= i < a.len() ==> (#[trigger] b[i]).0 == a[i].0 && b[i].1.id == a[i].1.id
            && b[i].1.options == a[i].1.options
}

} // verus!
