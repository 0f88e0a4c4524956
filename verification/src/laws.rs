//! The library's general guarantees, each proved once and for all from
//! the contracts of the operations.

use vstd::prelude::*;

use crate::options::OptionsView;
use crate::registry::{
    registry_restart_actions, registry_restart_actions_upto, registry_restarted, registry_started,
    registry_start_actions, registry_start_actions_upto, registry_stop_actions,
    registry_stop_actions_upto, registry_stopped, RegistryView,
};
use crate::source::{
    bump_id, file_reconciled, find_name, task_inited, tasks_started, tasks_start_actions,
    tasks_start_actions_upto, tasks_stopped, tasks_stop_actions, tasks_stop_actions_upto,
    unique_names, Reconciled,
};
use crate::task::{
    retries_ok, start_actions_upto, start_kills_upto, stop_actions_upto, task_started,
    task_start_actions, task_stopped, task_stop_actions, task_updated, task_update_actions,
    ActionView, TaskView,
};
use crate::unit::{
    unit_graceful_stopped, unit_new, unit_stopped, unit_ticked, ChildPoll, StateView, TickAct,
    UnitView,
};

verus! {

/// An OS child handle exists exactly when the unit's state is `Running`
/// or `Stopping`, and a running state records that handle's pid.
pub proof fn lemma_handle_iff_live(u: UnitView)
    requires
        u.wf(),
    ensures
        u.handle is Some <==> (u.state is Running || u.state is Stopping),
        u.state matches StateView::Running { pid, .. } ==> u.handle == Some(pid),
{
}

/// No unit of a well-formed registry ever exceeds its retry budget.
pub proof fn lemma_retry_budget(r: RegistryView, i: int, j: int, k: int)
    requires
        r.wf(),
        0 <= i < r.files.len(),
        0 <= j < r.files[i].tasks.len(),
        0 <= k < r.files[i].tasks[j].1.units.len(),
    ensures
        r.files[i].tasks[j].1.units[k].retries_count <= r.files[i].tasks[j].1.options.retries,
{
    assert(r.files[i].wf());
    assert(retries_ok(r.files[i].tasks[j].1));
}

/// After a start, a task holds exactly `numprocs` units, whatever it
/// held before.
pub proof fn lemma_start_replica_count(t: TaskView, now: u64)
    requires
        t.options.numprocs <= usize::MAX,
    ensures
        task_started(t, now).units.len() == t.options.numprocs,
{
}

/// An update to options equal in value neither stops nor starts any
/// child: the task is untouched and no action is asked for.
pub proof fn lemma_update_equal_options(t: TaskView, o: OptionsView, now: u64)
    requires
        t.options == o,
    ensures
        task_updated(t, o, now) == t,
        task_update_actions(t, o, now) == Seq::<ActionView>::empty(),
{
}

/// Reconciliation preserves the id of every task whose name is present
/// both before and after, whatever happened to its options.
pub proof fn lemma_reconcile_preserves_ids(
    ts: Seq<(Seq<char>, TaskView)>,
    cfg: Seq<(Seq<char>, OptionsView)>,
    now: u64,
    nid: usize,
)
    requires
        unique_names(ts),
        unique_names(cfg),
    ensures
        forall|k: int|
            0 <= k < cfg.len() ==> match find_name(ts, cfg[k].0) {
                Some(m) => (#[trigger] file_reconciled(ts, cfg, now, nid).tasks[k]).1.id
                    == ts[m].1.id,
                None => true,
            },
    decreases cfg.len(),
{
    if cfg.len() > 0 {
        let fr = file_reconciled(ts, cfg, now, nid);
        lemma_reconciled_shape(ts, cfg, now, nid);
        crate::source::lemma_find_name_found(ts, cfg[0].0);
        match find_name(ts, cfg[0].0) {
            Some(i) => {
                let rest_ts = ts.remove(i);
                assert forall|a: int, b: int|
                    0 <= a < b < rest_ts.len() implies rest_ts[a].0 != rest_ts[b].0 by {
                    let oa = if a < i {
                        a
                    } else {
                        a + 1
                    };
                    let ob = if b < i {
                        b
                    } else {
                        b + 1
                    };
                    assert(rest_ts[a] == ts[oa]);
                    assert(rest_ts[b] == ts[ob]);
                }
                lemma_reconcile_preserves_ids(rest_ts, cfg.drop_first(), now, nid);
                lemma_reconciled_shape(rest_ts, cfg.drop_first(), now, nid);
                let rest = file_reconciled(rest_ts, cfg.drop_first(), now, nid);
                assert forall|k: int| 1 <= k < cfg.len() implies match find_name(ts, cfg[k].0) {
                    Some(m) => (#[trigger] fr.tasks[k]).1.id == ts[m].1.id,
                    None => true,
                } by {
                    assert(fr.tasks[k] == rest.tasks[k - 1]);
                    assert(cfg.drop_first()[k - 1] == cfg[k]);
                    crate::source::lemma_find_name_found(ts, cfg[k].0);
                    crate::source::lemma_find_name_found(rest_ts, cfg[k].0);
                    match find_name(ts, cfg[k].0) {
                        Some(m) => {
                            assert(ts[m].0 == cfg[k].0);
                            assert(cfg[k].0 != cfg[0].0);
                            assert(m != i);
                            let m2 = if m < i {
                                m
                            } else {
                                m - 1
                            };
                            assert(rest_ts[m2] == ts[m]);
                            lemma_find_name_unique(rest_ts, cfg[k].0, m2);
                            assert(find_name(rest_ts, cfg[k].0) == Some(m2));
                        },
                        None => {},
                    }
                }
            },
            None => {
                lemma_reconcile_preserves_ids(ts, cfg.drop_first(), now, bump_id(nid));
                lemma_reconciled_shape(ts, cfg.drop_first(), now, bump_id(nid));
                let rest = file_reconciled(ts, cfg.drop_first(), now, bump_id(nid));
                assert forall|k: int| 1 <= k < cfg.len() implies match find_name(ts, cfg[k].0) {
                    Some(m) => (#[trigger] fr.tasks[k]).1.id == ts[m].1.id,
                    None => true,
                } by {
                    assert(fr.tasks[k] == rest.tasks[k - 1]);
                    assert(cfg.drop_first()[k - 1] == cfg[k]);
                }
            },
        }
    }
}

/// With unique names, the entry at a matching index is the one the search
/// finds.
pub proof fn lemma_find_name_unique(ts: Seq<(Seq<char>, TaskView)>, name: Seq<char>, i: int)
    requires
        unique_names(ts),
        0 <= i < ts.len(),
        ts[i].0 == name,
    ensures
        find_name(ts, name) == Some(i),
    decreases ts.len(),
{
    if i > 0 {
        assert(ts[0].0 != name);
        assert(ts.drop_first()[i - 1] == ts[i]);
        assert forall|a: int, b: int|
            0 <= a < b < ts.drop_first().len() implies ts.drop_first()[a].0 != ts.drop_first()[
            b
        ].0 by {
            assert(ts.drop_first()[a] == ts[a + 1]);
            assert(ts.drop_first()[b] == ts[b + 1]);
        }
        lemma_find_name_unique(ts.drop_first(), name, i - 1);
    }
}

/// Every task a reconciliation leaves behind carries the options its
/// configuration entry gave it, under its entry's name.
pub proof fn lemma_reconciled_shape(
    ts: Seq<(Seq<char>, TaskView)>,
    cfg: Seq<(Seq<char>, OptionsView)>,
    now: u64,
    nid: usize,
)
    ensures
        file_reconciled(ts, cfg, now, nid).tasks.len() == cfg.len(),
        forall|k: int|
            0 <= k < cfg.len() ==> (#[trigger] file_reconciled(ts, cfg, now, nid).tasks[k]).0
                == cfg[k].0 && file_reconciled(ts, cfg, now, nid).tasks[k].1.options == cfg[k].1,
    decreases cfg.len(),
{
    if cfg.len() > 0 {
        let fr = file_reconciled(ts, cfg, now, nid);
        match find_name(ts, cfg[0].0) {
            Some(i) => {
                lemma_reconciled_shape(ts.remove(i), cfg.drop_first(), now, nid);
                let rest = file_reconciled(ts.remove(i), cfg.drop_first(), now, nid);
                assert forall|k: int| 1 <= k < cfg.len() implies (#[trigger] fr.tasks[k]).0
                    == cfg[k].0 && fr.tasks[k].1.options == cfg[k].1 by {
                    assert(fr.tasks[k] == rest.tasks[k - 1]);
                    assert(cfg.drop_first()[k - 1] == cfg[k]);
                }
            },
            None => {
                lemma_reconciled_shape(ts, cfg.drop_first(), now, bump_id(nid));
                let rest = file_reconciled(ts, cfg.drop_first(), now, bump_id(nid));
                assert forall|k: int| 1 <= k < cfg.len() implies (#[trigger] fr.tasks[k]).0
                    == cfg[k].0 && fr.tasks[k].1.options == cfg[k].1 by {
                    assert(fr.tasks[k] == rest.tasks[k - 1]);
                    assert(cfg.drop_first()[k - 1] == cfg[k]);
                }
            },
        }
    }
}

/// Loading an unchanged configuration over the tasks its first load left
/// is invisible: same tasks, same ids, same uptimes, no actions, and no
/// id is consumed.
pub proof fn lemma_load_idempotent(
    ts: Seq<(Seq<char>, TaskView)>,
    cfg: Seq<(Seq<char>, OptionsView)>,
    now: u64,
    nid: usize,
)
    requires
        ts.len() == cfg.len(),
        forall|k: int|
            0 <= k < ts.len() ==> (#[trigger] ts[k]).0 == cfg[k].0 && ts[k].1.options
                == cfg[k].1,
        unique_names(cfg),
    ensures
        file_reconciled(ts, cfg, now, nid) == (Reconciled {
            tasks: ts,
            acts: Seq::<ActionView>::empty(),
            next_id: nid,
        }),
    decreases cfg.len(),
{
    assert forall|a: int, b: int| 0 <= a < b < ts.len() implies ts[a].0 != ts[b].0 by {
        assert(ts[a].0 == cfg[a].0);
        assert(ts[b].0 == cfg[b].0);
    }
    if cfg.len() == 0 {
        assert(file_reconciled(ts, cfg, now, nid) =~= (Reconciled {
            tasks: ts,
            acts: Seq::<ActionView>::empty(),
            next_id: nid,
        }));
    } else {
        lemma_find_name_unique(ts, cfg[0].0, 0);
        assert(task_updated(ts[0].1, cfg[0].1, now) == ts[0].1);
        assert(task_update_actions(ts[0].1, cfg[0].1, now) == Seq::<ActionView>::empty());
        let rest_ts = ts.remove(0);
        assert(rest_ts =~= ts.drop_first());
        assert forall|k: int|
            0 <= k < rest_ts.len() implies (#[trigger] rest_ts[k]).0 == cfg.drop_first()[k].0
            && rest_ts[k].1.options == cfg.drop_first()[k].1 by {
            assert(rest_ts[k] == ts[k + 1]);
            assert(cfg.drop_first()[k] == cfg[k + 1]);
        }
        assert forall|a: int, b: int|
            0 <= a < b < cfg.drop_first().len() implies cfg.drop_first()[a].0 != cfg.drop_first()[
            b
        ].0 by {
            assert(cfg.drop_first()[a] == cfg[a + 1]);
            assert(cfg.drop_first()[b] == cfg[b + 1]);
        }
        lemma_load_idempotent(rest_ts, cfg.drop_first(), now, nid);
        assert(file_reconciled(ts, cfg, now, nid).tasks =~= ts);
        assert(file_reconciled(ts, cfg, now, nid).acts =~= Seq::<ActionView>::empty());
        assert(file_reconciled(ts, cfg, now, nid) =~= (Reconciled {
            tasks: ts,
            acts: Seq::<ActionView>::empty(),
            next_id: nid,
        }));
    }
}

/// A restart of everything leaves the registry exactly as a stop of every
/// task followed by a start of every task would.
pub proof fn lemma_restart_is_stop_then_start(r: RegistryView, now: u64)
    ensures
        registry_restarted(r, now) == registry_started(registry_stopped(r, now), now),
{
    let lhs = registry_restarted(r, now);
    let rhs = registry_started(registry_stopped(r, now), now);
    assert forall|i: int| 0 <= i < r.files.len() implies lhs.files[i] == rhs.files[i] by {
        assert(lhs.files[i].tasks == tasks_started(tasks_stopped(r.files[i].tasks, now), now));
        assert(rhs.files[i].tasks == tasks_started(
            registry_stopped(r, now).files[i].tasks,
            now,
        ));
        assert(registry_stopped(r, now).files[i].tasks == tasks_stopped(r.files[i].tasks, now));
    }
    assert(lhs.files =~= rhs.files);
    assert(lhs =~= rhs);
}

/// Loading a source afresh after unloading it yields only fresh tasks:
/// every id is new to the registry and every unit's creation instant is
/// the instant of the new load.
pub proof fn lemma_fresh_after_unload(
    cfg: Seq<(Seq<char>, OptionsView)>,
    now: u64,
    nid: usize,
)
    requires
        nid + cfg.len() <= usize::MAX,
    ensures
        forall|k: int|
            0 <= k < cfg.len() ==> nid <= (#[trigger] file_reconciled(
                Seq::<(Seq<char>, TaskView)>::empty(),
                cfg,
                now,
                nid,
            ).tasks[k]).1.id,
        forall|k: int, j: int|
            0 <= k < cfg.len() && 0 <= j < file_reconciled(
                Seq::<(Seq<char>, TaskView)>::empty(),
                cfg,
                now,
                nid,
            ).tasks[k].1.units.len() ==> (#[trigger] file_reconciled(
                Seq::<(Seq<char>, TaskView)>::empty(),
                cfg,
                now,
                nid,
            ).tasks[k].1.units[j]).created_at == now,
    decreases cfg.len(),
{
    let ts = Seq::<(Seq<char>, TaskView)>::empty();
    if cfg.len() > 0 {
        let fr = file_reconciled(ts, cfg, now, nid);
        lemma_reconciled_shape(ts, cfg, now, nid);
        let fresh = TaskView { id: nid, options: cfg[0].1, units: Seq::empty() };
        assert(fr.tasks[0].1 == task_inited(fresh, now));
        assert forall|j: int|
            0 <= j < fr.tasks[0].1.units.len() implies (#[trigger] fr.tasks[0].1.units[j]).created_at
            == now by {
            if fresh.options.autostart {
                assert(fr.tasks[0].1.units[j] == unit_new(now));
            }
        }
        lemma_fresh_after_unload(cfg.drop_first(), now, bump_id(nid));
        lemma_reconciled_shape(ts, cfg.drop_first(), now, bump_id(nid));
        let rest = file_reconciled(ts, cfg.drop_first(), now, bump_id(nid));
        assert forall|k: int| 1 <= k < cfg.len() implies nid <= (#[trigger] fr.tasks[k]).1.id by {
            assert(fr.tasks[k] == rest.tasks[k - 1]);
            assert(bump_id(nid) <= rest.tasks[k - 1].1.id);
        }
        assert forall|k: int, j: int|
            1 <= k < cfg.len() && 0 <= j < fr.tasks[k].1.units.len() implies (
        #[trigger] fr.tasks[k].1.units[j]).created_at == now by {
            assert(fr.tasks[k] == rest.tasks[k - 1]);
            assert(rest.tasks[k - 1].1.units[j].created_at == now);
        }
    }
}

/// With no replicas wanted, a start makes no units and asks for nothing,
/// and a stop of the empty task is equally a no-op.
pub proof fn lemma_numprocs_zero(t: TaskView, now: u64)
    requires
        t.options.numprocs == 0,
        t.units.len() == 0,
    ensures
        task_started(t, now) == t,
        task_start_actions(t) == Seq::<ActionView>::empty(),
        task_stopped(t, now) == t,
        task_stop_actions(t) == Seq::<ActionView>::empty(),
{
    assert(task_started(t, now).units =~= t.units);
    assert(task_started(t, now) =~= t);
    assert(task_start_actions(t) =~= Seq::<ActionView>::empty());
    assert(task_stopped(t, now).units =~= t.units);
    assert(task_stopped(t, now) =~= t);
}

/// With no retries allowed, a child that dies is classified and left
/// where it fell: no respawn, and later ticks leave the dead unit alone.
pub proof fn lemma_no_retries_stays_down(u: UnitView, opts: OptionsView, code: i32, now: u64)
    requires
        u.wf(),
        u.live(),
        opts.retries == 0,
        opts.autorestart is Always,
    ensures
        unit_ticked(u, opts, ChildPoll::Exited { code }, now).0.state == (StateView::Exited {
            at: now,
            code,
        }),
        unit_ticked(u, opts, ChildPoll::Exited { code }, now).1 == TickAct::Nothing,
        !unit_ticked(u, opts, ChildPoll::Exited { code }, now).0.live(),
        forall|poll: ChildPoll, later: u64|
            !u.live() ==> #[trigger] unit_ticked(u, opts, poll, later) == (u, TickAct::Nothing),
{
}

/// The kill actions among a list of actions, in order.
pub open spec fn kills_of(s: Seq<ActionView>) -> Seq<ActionView> {
    s.filter(|a: ActionView| a is Kill)
}

/// The spawn actions among a list of actions, in order.
pub open spec fn spawns_of(s: Seq<ActionView>) -> Seq<ActionView> {
    s.filter(|a: ActionView| a is Spawn)
}

proof fn lemma_filter_single(a: ActionView, pred: spec_fn(ActionView) -> bool)
    ensures
        seq![a].filter(pred) == if pred(a) {
            seq![a]
        } else {
            Seq::<ActionView>::empty()
        },
        Seq::<ActionView>::empty().filter(pred) == Seq::<ActionView>::empty(),
{
    reveal_with_fuel(Seq::filter, 2);
    assert(seq![a].drop_last() =~= Seq::<ActionView>::empty());
    if pred(a) {
        assert(seq![a].filter(pred) =~= seq![a]);
    } else {
        assert(seq![a].filter(pred) =~= Seq::<ActionView>::empty());
    }
}

/// A task's stop actions are kills through and through.
proof fn lemma_task_stop_all_kills(t: TaskView, n: int)
    requires
        n <= t.units.len(),
    ensures
        kills_of(stop_actions_upto(t, n)) == stop_actions_upto(t, n),
        spawns_of(stop_actions_upto(t, n)) == Seq::<ActionView>::empty(),
    decreases n,
{
    broadcast use vstd::seq_lib::group_filter_ensures;

    let is_kill = |a: ActionView| a is Kill;
    let is_spawn = |a: ActionView| a is Spawn;
    lemma_filter_single(ActionView::Kill { task_id: 0, unit_index: 0, pid: 0 }, is_kill);
    if n <= 0 {
        assert(kills_of(stop_actions_upto(t, n)) =~= stop_actions_upto(t, n));
        assert(spawns_of(stop_actions_upto(t, n)) =~= Seq::<ActionView>::empty());
    } else {
        lemma_task_stop_all_kills(t, n - 1);
        Seq::filter_distributes_over_add(
            stop_actions_upto(t, n - 1),
            stop_actions_upto(t, n).skip(stop_actions_upto(t, n - 1).len() as int),
            is_kill,
        );
        let tail = if t.units[n - 1].live() {
            seq![
                ActionView::Kill {
                    task_id: t.id,
                    unit_index: (n - 1) as usize,
                    pid: t.units[n - 1].handle->Some_0,
                },
            ]
        } else {
            Seq::<ActionView>::empty()
        };
        assert(stop_actions_upto(t, n) == stop_actions_upto(t, n - 1) + tail);
        Seq::filter_distributes_over_add(stop_actions_upto(t, n - 1), tail, is_kill);
        Seq::filter_distributes_over_add(stop_actions_upto(t, n - 1), tail, is_spawn);
        if t.units[n - 1].live() {
            lemma_filter_single(tail[0], is_kill);
            lemma_filter_single(tail[0], is_spawn);
        } else {
            lemma_filter_single(ActionView::Kill { task_id: 0, unit_index: 0, pid: 0 }, is_spawn);
        }
        assert(kills_of(stop_actions_upto(t, n)) =~= stop_actions_upto(t, n));
        assert(spawns_of(stop_actions_upto(t, n)) =~= Seq::<ActionView>::empty());
    }
}

/// A task's start actions are spawns through and through.
proof fn lemma_task_start_all_spawns(t: TaskView, n: int)
    ensures
        spawns_of(start_actions_upto(t, n)) == start_actions_upto(t, n),
        kills_of(start_actions_upto(t, n)) == Seq::<ActionView>::empty(),
    decreases n,
{
    let is_kill = |a: ActionView| a is Kill;
    let is_spawn = |a: ActionView| a is Spawn;
    if n <= 0 {
        lemma_filter_single(ActionView::Kill { task_id: 0, unit_index: 0, pid: 0 }, is_kill);
        lemma_filter_single(ActionView::Kill { task_id: 0, unit_index: 0, pid: 0 }, is_spawn);
        assert(spawns_of(start_actions_upto(t, n)) =~= start_actions_upto(t, n));
        assert(kills_of(start_actions_upto(t, n)) =~= Seq::<ActionView>::empty());
    } else {
        lemma_task_start_all_spawns(t, n - 1);
        let tail = if crate::task::start_spawn_idx(t, n - 1) {
            seq![
                ActionView::Spawn {
                    task_id: t.id,
                    unit_index: (n - 1) as usize,
                    options: t.options,
                },
            ]
        } else {
            Seq::<ActionView>::empty()
        };
        assert(start_actions_upto(t, n) == start_actions_upto(t, n - 1) + tail);
        Seq::filter_distributes_over_add(start_actions_upto(t, n - 1), tail, is_kill);
        Seq::filter_distributes_over_add(start_actions_upto(t, n - 1), tail, is_spawn);
        if crate::task::start_spawn_idx(t, n - 1) {
            lemma_filter_single(tail[0], is_kill);
            lemma_filter_single(tail[0], is_spawn);
        } else {
            lemma_filter_single(ActionView::Kill { task_id: 0, unit_index: 0, pid: 0 }, is_kill);
            lemma_filter_single(ActionView::Kill { task_id: 0, unit_index: 0, pid: 0 }, is_spawn);
        }
        assert(spawns_of(start_actions_upto(t, n)) =~= start_actions_upto(t, n));
        assert(kills_of(start_actions_upto(t, n)) =~= Seq::<ActionView>::empty());
    }
}

/// A start over a task with no live unit kills nothing.
proof fn lemma_start_kills_dead(t: TaskView, n: int)
    requires
        n <= t.units.len(),
        forall|i: int| 0 <= i < t.units.len() ==> !(#[trigger] t.units[i]).live(),
    ensures
        start_kills_upto(t, n) == Seq::<ActionView>::empty(),
    decreases n,
{
    if n > crate::task::target_units(t) {
        lemma_start_kills_dead(t, n - 1);
        assert(start_kills_upto(t, n) =~= Seq::<ActionView>::empty());
    }
}

/// The whole action list of a start over a task with no live unit is
/// spawns only.
proof fn lemma_task_start_dead_all_spawns(t: TaskView)
    requires
        forall|i: int| 0 <= i < t.units.len() ==> !(#[trigger] t.units[i]).live(),
    ensures
        spawns_of(task_start_actions(t)) == task_start_actions(t),
        kills_of(task_start_actions(t)) == Seq::<ActionView>::empty(),
{
    lemma_start_kills_dead(t, t.units.len() as int);
    assert(task_start_actions(t) =~= start_actions_upto(t, crate::task::target_units(t)));
    lemma_task_start_all_spawns(t, crate::task::target_units(t));
}

/// A source's stop sweep is kills only.
proof fn lemma_file_stop_sweep(ts: Seq<(Seq<char>, TaskView)>, n: int)
    requires
        n <= ts.len(),
    ensures
        kills_of(tasks_stop_actions_upto(ts, n)) == tasks_stop_actions_upto(ts, n),
        spawns_of(tasks_stop_actions_upto(ts, n)) == Seq::<ActionView>::empty(),
    decreases n,
{
    let is_kill = |a: ActionView| a is Kill;
    let is_spawn = |a: ActionView| a is Spawn;
    if n <= 0 {
        lemma_filter_single(ActionView::Kill { task_id: 0, unit_index: 0, pid: 0 }, is_kill);
        lemma_filter_single(ActionView::Kill { task_id: 0, unit_index: 0, pid: 0 }, is_spawn);
        assert(kills_of(tasks_stop_actions_upto(ts, n)) =~= tasks_stop_actions_upto(ts, n));
        assert(spawns_of(tasks_stop_actions_upto(ts, n)) =~= Seq::<ActionView>::empty());
    } else {
        lemma_file_stop_sweep(ts, n - 1);
        let t = ts[n - 1].1;
        lemma_task_stop_all_kills(t, t.units.len() as int);
        Seq::filter_distributes_over_add(
            tasks_stop_actions_upto(ts, n - 1),
            task_stop_actions(t),
            is_kill,
        );
        Seq::filter_distributes_over_add(
            tasks_stop_actions_upto(ts, n - 1),
            task_stop_actions(t),
            is_spawn,
        );
        assert(kills_of(tasks_stop_actions_upto(ts, n)) =~= tasks_stop_actions_upto(ts, n));
        assert(spawns_of(tasks_stop_actions_upto(ts, n)) =~= Seq::<ActionView>::empty());
    }
}

/// A source whose tasks hold no live unit starts with spawns only.
proof fn lemma_file_start_sweep(ts: Seq<(Seq<char>, TaskView)>, n: int)
    requires
        n <= ts.len(),
        forall|k: int, i: int|
            0 <= k < ts.len() && 0 <= i < ts[k].1.units.len() ==> !(
            #[trigger] ts[k].1.units[i]).live(),
    ensures
        spawns_of(tasks_start_actions_upto(ts, n)) == tasks_start_actions_upto(ts, n),
        kills_of(tasks_start_actions_upto(ts, n)) == Seq::<ActionView>::empty(),
    decreases n,
{
    let is_kill = |a: ActionView| a is Kill;
    let is_spawn = |a: ActionView| a is Spawn;
    if n <= 0 {
        lemma_filter_single(ActionView::Kill { task_id: 0, unit_index: 0, pid: 0 }, is_kill);
        lemma_filter_single(ActionView::Kill { task_id: 0, unit_index: 0, pid: 0 }, is_spawn);
        assert(spawns_of(tasks_start_actions_upto(ts, n)) =~= tasks_start_actions_upto(ts, n));
        assert(kills_of(tasks_start_actions_upto(ts, n)) =~= Seq::<ActionView>::empty());
    } else {
        lemma_file_start_sweep(ts, n - 1);
        let t = ts[n - 1].1;
        assert forall|i: int| 0 <= i < t.units.len() implies !(#[trigger] t.units[i]).live() by {
            assert(!ts[n - 1].1.units[i].live());
        }
        lemma_task_start_dead_all_spawns(t);
        Seq::filter_distributes_over_add(
            tasks_start_actions_upto(ts, n - 1),
            task_start_actions(t),
            is_kill,
        );
        Seq::filter_distributes_over_add(
            tasks_start_actions_upto(ts, n - 1),
            task_start_actions(t),
            is_spawn,
        );
        assert(spawns_of(tasks_start_actions_upto(ts, n)) =~= tasks_start_actions_upto(ts, n));
        assert(kills_of(tasks_start_actions_upto(ts, n)) =~= Seq::<ActionView>::empty());
    }
}

/// One source's restart step splits: its kills are its stop sweep, its
/// spawns the start sweep of its stopped tasks.
proof fn lemma_step_split(
    prefix: Seq<ActionView>,
    prefix_kills: Seq<ActionView>,
    prefix_spawns: Seq<ActionView>,
    ts: Seq<(Seq<char>, TaskView)>,
    now: u64,
)
    requires
        kills_of(prefix) == prefix_kills,
        spawns_of(prefix) == prefix_spawns,
    ensures
        kills_of(
            prefix + (tasks_stop_actions(ts) + tasks_start_actions(tasks_stopped(ts, now))),
        ) == prefix_kills + tasks_stop_actions(ts),
        spawns_of(
            prefix + (tasks_stop_actions(ts) + tasks_start_actions(tasks_stopped(ts, now))),
        ) == prefix_spawns + tasks_start_actions(tasks_stopped(ts, now)),
{
    let is_kill = |a: ActionView| a is Kill;
    let is_spawn = |a: ActionView| a is Spawn;
    let stopped = tasks_stopped(ts, now);
    lemma_file_stop_sweep(ts, ts.len() as int);
    assert forall|k: int, i: int|
        0 <= k < stopped.len() && 0 <= i < stopped[k].1.units.len() implies !(
    #[trigger] stopped[k].1.units[i]).live() by {
        assert(stopped[k].1 == task_stopped(ts[k].1, now));
        assert(stopped[k].1.units[i] == unit_stopped(ts[k].1.units[i], now));
    }
    lemma_file_start_sweep(stopped, stopped.len() as int);
    let step = tasks_stop_actions(ts) + tasks_start_actions(stopped);
    Seq::filter_distributes_over_add(prefix, step, is_kill);
    Seq::filter_distributes_over_add(prefix, step, is_spawn);
    Seq::filter_distributes_over_add(
        tasks_stop_actions(ts),
        tasks_start_actions(stopped),
        is_kill,
    );
    Seq::filter_distributes_over_add(
        tasks_stop_actions(ts),
        tasks_start_actions(stopped),
        is_spawn,
    );
    assert(kills_of(prefix + step) =~= prefix_kills + tasks_stop_actions(ts));
    assert(spawns_of(prefix + step) =~= prefix_spawns + tasks_start_actions(stopped));
}

/// The actions of a restart, too, are those of a stop of everything
/// followed by a start of everything: the kills among them are exactly
/// the registry-wide stop sweep, the spawns exactly the registry-wide
/// start sweep over the stopped registry.
pub proof fn lemma_restart_actions_split(r: RegistryView, now: u64)
    ensures
        kills_of(registry_restart_actions(r, now)) == registry_stop_actions(r),
        spawns_of(registry_restart_actions(r, now)) == registry_start_actions(
            registry_stopped(r, now),
        ),
{
    lemma_restart_actions_split_upto(r, now, r.files.len() as int);
    assert(registry_stopped(r, now).files.len() == r.files.len());
}

proof fn lemma_restart_actions_split_upto(r: RegistryView, now: u64, n: int)
    requires
        n <= r.files.len(),
    ensures
        kills_of(registry_restart_actions_upto(r, now, n)) == registry_stop_actions_upto(r, n),
        spawns_of(registry_restart_actions_upto(r, now, n)) == registry_start_actions_upto(
            registry_stopped(r, now),
            n,
        ),
    decreases n,
{
    if n <= 0 {
        let is_kill = |a: ActionView| a is Kill;
        let is_spawn = |a: ActionView| a is Spawn;
        lemma_filter_single(ActionView::Kill { task_id: 0, unit_index: 0, pid: 0 }, is_kill);
        lemma_filter_single(ActionView::Kill { task_id: 0, unit_index: 0, pid: 0 }, is_spawn);
        assert(kills_of(registry_restart_actions_upto(r, now, n)) =~= registry_stop_actions_upto(
            r,
            n,
        ));
        assert(spawns_of(registry_restart_actions_upto(r, now, n))
            =~= registry_start_actions_upto(registry_stopped(r, now), n));
    } else {
        lemma_restart_actions_split_upto(r, now, n - 1);
        lemma_step_split(
            registry_restart_actions_upto(r, now, n - 1),
            registry_stop_actions_upto(r, n - 1),
            registry_start_actions_upto(registry_stopped(r, now), n - 1),
            r.files[n - 1].tasks,
            now,
        );
        assert(registry_stopped(r, now).files[n - 1].tasks == tasks_stopped(
            r.files[n - 1].tasks,
            now,
        ));
    }
}

} // verus!
