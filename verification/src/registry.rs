//! The registry: every loaded configuration source and its tasks, the
//! process-wide id counter, and the operations the control plane drives.

use vstd::prelude::*;

use crate::options::{OptionsView, TaskOptions};
use crate::source::{
    cfg_view, file_reconciled, tasks_started, tasks_start_actions, tasks_stopped,
    tasks_stop_actions, tasks_ticked, tasks_tick_actions, tasks_ids_same, unique_names, FileView,
    TaskFile,
};
use crate::task::{
    acts_view, retries_ok, task_graceful_stopped, task_graceful_actions, task_started,
    task_start_actions, task_stopped, task_stop_actions, Action, ActionView, PollEvent, TaskView,
};
use crate::text::str_eq;

verus! {

/// The views of a file list.
pub open spec fn files_view(s: Seq<TaskFile>) -> Seq<FileView> {
    s.map_values(|f: TaskFile| f@)
}

/// The whole live configuration.
pub struct TaskFiles {
    /// Every loaded source.
    pub files: Vec<TaskFile>,
    /// The next task id to hand out; ids are never reused.
    pub next_id: usize,
}

/// Mathematical view of [`TaskFiles`].
#[verifier::ext_equal]
pub struct RegistryView {
    pub files: Seq<FileView>,
    pub next_id: usize,
}

impl View for TaskFiles {
    type V = RegistryView;

    open spec fn view(&self) -> RegistryView {
        RegistryView { files: files_view(self.files@), next_id: self.next_id }
    }
}

impl RegistryView {
    /// No two sources share a path.
    pub open spec fn unique_paths(self) -> bool {
        forall|i: int, j: int|
            0 <= i < j < self.files.len() ==> (#[trigger] self.files[i]).path
                != (#[trigger] self.files[j]).path
    }

    /// Every task id is below the counter.
    pub open spec fn ids_bounded(self) -> bool {
        forall|i: int, j: int|
            0 <= i < self.files.len() && 0 <= j < self.files[i].tasks.len() ==> (
            #[trigger] self.files[i].tasks[j]).1.id < self.next_id
    }

    /// No two tasks share an id.
    pub open spec fn ids_unique(self) -> bool {
        forall|i1: int, j1: int, i2: int, j2: int|
            0 <= i1 < self.files.len() && 0 <= j1 < self.files[i1].tasks.len() && 0 <= i2
                < self.files.len() && 0 <= j2 < self.files[i2].tasks.len() && (i1 != i2 || j1
                != j2) ==> (#[trigger] self.files[i1].tasks[j1]).1.id != (
            #[trigger] self.files[i2].tasks[j2]).1.id
    }

    /// Unique paths and ids, a positive counter, and every file well
    /// formed.
    pub open spec fn wf(self) -> bool {
        &&& self.unique_paths()
        &&& forall|i: int| 0 <= i < self.files.len() ==> (#[trigger] self.files[i]).wf()
        &&& self.ids_bounded()
        &&& self.ids_unique()
        &&& self.next_id >= 1
    }
}

impl TaskFiles {
    /// The view well formed, and every file well formed at the record
    /// level too.
    pub open spec fn wf(&self) -> bool {
        &&& self@.wf()
        &&& forall|i: int| 0 <= i < self.files@.len() ==> (#[trigger] self.files@[i]).wf()
    }
}

/// The index of the first source with this path.
pub open spec fn find_path(files: Seq<FileView>, path: Seq<char>) -> Option<int>
    decreases files.len(),
{
    if files.len() == 0 {
        None
    } else if files[0].path == path {
        Some(0)
    } else {
        match find_path(files.drop_first(), path) {
            Some(i) => Some(i + 1),
            None => None,
        }
    }
}

pub proof fn lemma_find_path_skip(files: Seq<FileView>, path: Seq<char>, i: int)
    requires
        0 <= i <= files.len(),
        forall|j: int| 0 <= j < i ==> (#[trigger] files[j]).path != path,
    ensures
        find_path(files, path) == match find_path(files.skip(i), path) {
            Some(j) => Some(i + j),
            None => None::<int>,
        },
    decreases i,
{
    if i > 0 {
        lemma_find_path_skip(files, path, i - 1);
        assert(files.skip(i - 1)[0] == files[i - 1]);
        assert(files.skip(i - 1).drop_first() =~= files.skip(i));
    } else {
        assert(files.skip(0) =~= files);
    }
}

/// A found index names the source searched for.
pub proof fn lemma_find_path_found(files: Seq<FileView>, path: Seq<char>)
    ensures
        find_path(files, path) matches Some(i) ==> 0 <= i < files.len() && files[i].path == path,
        find_path(files, path) is None ==> forall|j: int|
            0 <= j < files.len() ==> (#[trigger] files[j]).path != path,
    decreases files.len(),
{
    if files.len() > 0 && files[0].path != path {
        lemma_find_path_found(files.drop_first(), path);
        if find_path(files.drop_first(), path) is Some {
            let j = find_path(files.drop_first(), path)->Some_0;
            assert(files.drop_first()[j] == files[j + 1]);
        } else {
            assert forall|j: int| 0 <= j < files.len() implies (#[trigger] files[j]).path
                != path by {
                if j > 0 {
                    assert(files.drop_first()[j - 1] == files[j]);
                }
            }
        }
    }
}

/// The registry after a validated configuration is applied to a source: a
/// loaded source is reconciled in place, an unknown one appended with all
/// its tasks fresh.
pub open spec fn registry_applied(
    r: RegistryView,
    path: Seq<char>,
    cfg: Seq<(Seq<char>, OptionsView)>,
    now: u64,
) -> RegistryView {
    match find_path(r.files, path) {
        Some(i) => {
            let fr = file_reconciled(r.files[i].tasks, cfg, now, r.next_id);
            RegistryView {
                files: r.files.update(
                    i,
                    FileView { path: r.files[i].path, tasks: fr.tasks },
                ),
                next_id: fr.next_id,
            }
        },
        None => {
            let fr = file_reconciled(Seq::empty(), cfg, now, r.next_id);
            RegistryView {
                files: r.files.push(FileView { path, tasks: fr.tasks }),
                next_id: fr.next_id,
            }
        },
    }
}

/// The actions of applying a configuration.
pub open spec fn registry_apply_actions(
    r: RegistryView,
    path: Seq<char>,
    cfg: Seq<(Seq<char>, OptionsView)>,
    now: u64,
) -> Seq<ActionView> {
    match find_path(r.files, path) {
        Some(i) => file_reconciled(r.files[i].tasks, cfg, now, r.next_id).acts,
        None => file_reconciled(Seq::empty(), cfg, now, r.next_id).acts,
    }
}

/// The registry after a source is unloaded.
pub open spec fn registry_unloaded(r: RegistryView, path: Seq<char>, now: u64) -> RegistryView {
    match find_path(r.files, path) {
        Some(i) => RegistryView { files: r.files.remove(i), next_id: r.next_id },
        None => r,
    }
}

/// The actions of unloading a source: every task of it is killed.
pub open spec fn registry_unload_actions(r: RegistryView, path: Seq<char>, now: u64) -> Seq<
    ActionView,
> {
    match find_path(r.files, path) {
        Some(i) => tasks_stop_actions(r.files[i].tasks),
        None => Seq::empty(),
    }
}

/// The registry after one health tick.
pub open spec fn registry_ticked(r: RegistryView, polls: Seq<PollEvent>, now: u64) -> RegistryView {
    RegistryView {
        files: r.files.map_values(
            |f: FileView| FileView { path: f.path, tasks: tasks_ticked(f.tasks, polls, now) },
        ),
        ..r
    }
}

/// The actions of one health tick, over the first `n` sources.
pub open spec fn registry_tick_actions_upto(
    r: RegistryView,
    polls: Seq<PollEvent>,
    now: u64,
    n: int,
) -> Seq<ActionView>
    decreases n,
{
    if n <= 0 {
        Seq::empty()
    } else {
        registry_tick_actions_upto(r, polls, now, n - 1) + tasks_tick_actions(
            r.files[n - 1].tasks,
            polls,
            now,
        )
    }
}

/// The actions of one health tick.
pub open spec fn registry_tick_actions(r: RegistryView, polls: Seq<PollEvent>, now: u64) -> Seq<
    ActionView,
> {
    registry_tick_actions_upto(r, polls, now, r.files.len() as int)
}

/// Every task stopped: what a registry-wide stop leaves behind.
pub open spec fn registry_stopped(r: RegistryView, now: u64) -> RegistryView {
    RegistryView {
        files: r.files.map_values(
            |f: FileView| FileView { path: f.path, tasks: tasks_stopped(f.tasks, now) },
        ),
        ..r
    }
}

/// Every task started: what a registry-wide start leaves behind.
pub open spec fn registry_started(r: RegistryView, now: u64) -> RegistryView {
    RegistryView {
        files: r.files.map_values(
            |f: FileView| FileView { path: f.path, tasks: tasks_started(f.tasks, now) },
        ),
        ..r
    }
}

/// The kill actions of stopping every task of the first `n` sources.
pub open spec fn registry_stop_actions_upto(r: RegistryView, n: int) -> Seq<ActionView>
    decreases n,
{
    if n <= 0 {
        Seq::empty()
    } else {
        registry_stop_actions_upto(r, n - 1) + tasks_stop_actions(r.files[n - 1].tasks)
    }
}

/// The kill actions of stopping every task of every source.
pub open spec fn registry_stop_actions(r: RegistryView) -> Seq<ActionView> {
    registry_stop_actions_upto(r, r.files.len() as int)
}

/// The spawn actions of starting every task of the first `n` sources.
pub open spec fn registry_start_actions_upto(r: RegistryView, n: int) -> Seq<ActionView>
    decreases n,
{
    if n <= 0 {
        Seq::empty()
    } else {
        registry_start_actions_upto(r, n - 1) + tasks_start_actions(r.files[n - 1].tasks)
    }
}

/// The spawn actions of starting every task of every source.
pub open spec fn registry_start_actions(r: RegistryView) -> Seq<ActionView> {
    registry_start_actions_upto(r, r.files.len() as int)
}

/// The registry after a restart of everything: per source, a stop of
/// every task followed by a start of every task.
pub open spec fn registry_restarted(r: RegistryView, now: u64) -> RegistryView {
    RegistryView {
        files: r.files.map_values(
            |f: FileView|
                FileView {
                    path: f.path,
                    tasks: tasks_started(tasks_stopped(f.tasks, now), now),
                },
        ),
        ..r
    }
}

/// The actions of a restart, over the first `n` sources: the kills of the
/// source, then its spawns.
pub open spec fn registry_restart_actions_upto(r: RegistryView, now: u64, n: int) -> Seq<
    ActionView,
>
    decreases n,
{
    if n <= 0 {
        Seq::empty()
    } else {
        registry_restart_actions_upto(r, now, n - 1) + (tasks_stop_actions(r.files[n - 1].tasks)
            + tasks_start_actions(tasks_stopped(r.files[n - 1].tasks, now)))
    }
}

/// The actions of a restart of everything.
pub open spec fn registry_restart_actions(r: RegistryView, now: u64) -> Seq<ActionView> {
    registry_restart_actions_upto(r, now, r.files.len() as int)
}

/// Well-formedness carries over to a registry with the same layout of
/// paths, names, ids and options.
pub proof fn lemma_wf_same_ids(r1: RegistryView, r2: RegistryView)
    requires
        r1.wf(),
        r2.files.len() == r1.files.len(),
        forall|i: int| 0 <= i < r2.files.len() ==> (#[trigger] r2.files[i]).path
            == r1.files[i].path,
        forall|i: int|
            0 <= i < r2.files.len() ==> tasks_ids_same(
                r1.files[i].tasks,
                (#[trigger] r2.files[i]).tasks,
            ),
        forall|i: int| 0 <= i < r2.files.len() ==> (#[trigger] r2.files[i]).wf(),
        r2.next_id == r1.next_id,
    ensures
        r2.wf(),
{
    assert forall|i: int, j: int|
        0 <= i < r2.files.len() && 0 <= j < r2.files[i].tasks.len() implies (
    #[trigger] r2.files[i].tasks[j]).1.id < r2.next_id by {
        assert(tasks_ids_same(r1.files[i].tasks, r2.files[i].tasks));
        assert(r1.files[i].tasks[j].1.id < r1.next_id);
    }
    assert forall|i1: int, j1: int, i2: int, j2: int|
        0 <= i1 < r2.files.len() && 0 <= j1 < r2.files[i1].tasks.len() && 0 <= i2
            < r2.files.len() && 0 <= j2 < r2.files[i2].tasks.len() && (i1 != i2 || j1
            != j2) implies (#[trigger] r2.files[i1].tasks[j1]).1.id != (
    #[trigger] r2.files[i2].tasks[j2]).1.id by {
        assert(tasks_ids_same(r1.files[i1].tasks, r2.files[i1].tasks));
        assert(tasks_ids_same(r1.files[i2].tasks, r2.files[i2].tasks));
        assert(r1.files[i1].tasks[j1].1.id != r1.files[i2].tasks[j2].1.id);
    }
}

/// What reconciliation does to ids: names follow the configuration; a
/// surviving name keeps its id; fresh tasks take new ids from the counter;
/// all ids stay unique and below the counter.
pub proof fn lemma_reconciled_ids(
    ts: Seq<(Seq<char>, TaskView)>,
    cfg: Seq<(Seq<char>, OptionsView)>,
    now: u64,
    nid: usize,
)
    requires
        nid + cfg.len() <= usize::MAX,
        forall|j: int| 0 <= j < ts.len() ==> (#[trigger] ts[j]).1.id < nid,
        forall|j1: int, j2: int|
            0 <= j1 < j2 < ts.len() ==> (#[trigger] ts[j1]).1.id != (#[trigger] ts[j2]).1.id,
    ensures
        file_reconciled(ts, cfg, now, nid).tasks.len() == cfg.len(),
        forall|k: int|
            0 <= k < cfg.len() ==> (#[trigger] file_reconciled(ts, cfg, now, nid).tasks[k]).0
                == cfg[k].0,
        nid <= file_reconciled(ts, cfg, now, nid).next_id <= nid + cfg.len(),
        forall|k: int|
            0 <= k < cfg.len() ==> (#[trigger] file_reconciled(ts, cfg, now, nid).tasks[k]).1.id
                < file_reconciled(ts, cfg, now, nid).next_id,
        forall|k: int|
            0 <= k < cfg.len() ==> ((exists|m: int|
                0 <= m < ts.len() && (#[trigger] file_reconciled(ts, cfg, now, nid).tasks[k]).1.id
                    == ts[m].1.id) || nid <= file_reconciled(ts, cfg, now, nid).tasks[k].1.id),
        forall|k1: int, k2: int|
            0 <= k1 < k2 < cfg.len() ==> (#[trigger] file_reconciled(
                ts,
                cfg,
                now,
                nid,
            ).tasks[k1]).1.id != (#[trigger] file_reconciled(ts, cfg, now, nid).tasks[k2]).1.id,
    decreases cfg.len(),
{
    crate::source::lemma_find_name_found(ts, if cfg.len() > 0 {
        cfg[0].0
    } else {
        Seq::empty()
    });
    if cfg.len() > 0 {
        let fr = file_reconciled(ts, cfg, now, nid);
        match crate::source::find_name(ts, cfg[0].0) {
            Some(i) => {
                let rest_ts = ts.remove(i);
                assert forall|j1: int, j2: int|
                    0 <= j1 < j2 < rest_ts.len() implies (#[trigger] rest_ts[j1]).1.id != (
                #[trigger] rest_ts[j2]).1.id by {
                    let o1 = if j1 < i {
                        j1
                    } else {
                        j1 + 1
                    };
                    let o2 = if j2 < i {
                        j2
                    } else {
                        j2 + 1
                    };
                    assert(rest_ts[j1] == ts[o1]);
                    assert(rest_ts[j2] == ts[o2]);
                }
                assert forall|j: int| 0 <= j < rest_ts.len() implies (#[trigger] rest_ts[j]).1.id
                    < nid by {
                    let o = if j < i {
                        j
                    } else {
                        j + 1
                    };
                    assert(rest_ts[j] == ts[o]);
                }
                lemma_reconciled_ids(rest_ts, cfg.drop_first(), now, nid);
                let rest = file_reconciled(rest_ts, cfg.drop_first(), now, nid);
                assert(fr.tasks[0].1.id == ts[i].1.id);
                assert forall|k: int| 1 <= k < cfg.len() implies (#[trigger] fr.tasks[k]).0
                    == cfg[k].0 && fr.tasks[k].1.id < fr.next_id && ((exists|m: int|
                    0 <= m < ts.len() && fr.tasks[k].1.id == ts[m].1.id) || nid
                    <= fr.tasks[k].1.id) by {
                    assert(fr.tasks[k] == rest.tasks[k - 1]);
                    assert(cfg.drop_first()[k - 1] == cfg[k]);
                    if exists|m: int|
                        0 <= m < rest_ts.len() && rest.tasks[k - 1].1.id == rest_ts[m].1.id {
                        let m = choose|m: int|
                            0 <= m < rest_ts.len() && rest.tasks[k - 1].1.id == rest_ts[m].1.id;
                        let o = if m < i {
                            m
                        } else {
                            m + 1
                        };
                        assert(rest_ts[m] == ts[o]);
                        assert(fr.tasks[k].1.id == ts[o].1.id);
                    }
                }
                assert forall|k1: int, k2: int| 0 <= k1 < k2 < cfg.len() implies (
                #[trigger] fr.tasks[k1]).1.id != (#[trigger] fr.tasks[k2]).1.id by {
                    if k1 == 0 {
                        assert(fr.tasks[k2] == rest.tasks[k2 - 1]);
                        if exists|m: int|
                            0 <= m < rest_ts.len() && rest.tasks[k2 - 1].1.id == rest_ts[m].1.id {
                            let m = choose|m: int|
                                0 <= m < rest_ts.len() && rest.tasks[k2 - 1].1.id
                                    == rest_ts[m].1.id;
                            let o = if m < i {
                                m
                            } else {
                                m + 1
                            };
                            assert(rest_ts[m] == ts[o]);
                            assert(ts[o].1.id != ts[i].1.id);
                        }
                    } else {
                        assert(fr.tasks[k1] == rest.tasks[k1 - 1]);
                        assert(fr.tasks[k2] == rest.tasks[k2 - 1]);
                    }
                }
            },
            None => {
                let rest = file_reconciled(ts, cfg.drop_first(), now, crate::source::bump_id(nid));
                assert(crate::source::bump_id(nid) == nid + 1);
                lemma_reconciled_ids(ts, cfg.drop_first(), now, (nid + 1) as usize);
                assert(fr.tasks[0].1.id == nid);
                assert forall|k: int| 1 <= k < cfg.len() implies (#[trigger] fr.tasks[k]).0
                    == cfg[k].0 && fr.tasks[k].1.id < fr.next_id && ((exists|m: int|
                    0 <= m < ts.len() && fr.tasks[k].1.id == ts[m].1.id) || nid
                    <= fr.tasks[k].1.id) by {
                    assert(fr.tasks[k] == rest.tasks[k - 1]);
                    assert(cfg.drop_first()[k - 1] == cfg[k]);
                }
                assert forall|k1: int, k2: int| 0 <= k1 < k2 < cfg.len() implies (
                #[trigger] fr.tasks[k1]).1.id != (#[trigger] fr.tasks[k2]).1.id by {
                    if k1 == 0 {
                        assert(fr.tasks[k2] == rest.tasks[k2 - 1]);
                        if exists|m: int|
                            0 <= m < ts.len() && rest.tasks[k2 - 1].1.id == ts[m].1.id {
                            let m = choose|m: int|
                                0 <= m < ts.len() && rest.tasks[k2 - 1].1.id == ts[m].1.id;
                            assert(ts[m].1.id < nid);
                        }
                    } else {
                        assert(fr.tasks[k1] == rest.tasks[k1 - 1]);
                        assert(fr.tasks[k2] == rest.tasks[k2 - 1]);
                    }
                }
            },
        }
    }
}

impl TaskFiles {
    /// An empty registry; task ids start at one.
    pub fn new() -> (r: TaskFiles)
        ensures
            r@ == (RegistryView { files: Seq::<FileView>::empty(), next_id: 1 }),
            r.wf(),
    {
        let r = TaskFiles { files: Vec::new(), next_id: 1 };
        proof {
            assert(r@.files =~= Seq::<FileView>::empty());
        }
        r
    }

    /// The index of the source loaded from this path.
    pub fn find_path_index(&self, path: &str) -> (r: Option<usize>)
        ensures
            match r {
                Some(i) => i < self@.files.len() && find_path(self@.files, path@) == Some(
                    i as int,
                ),
                None => find_path(self@.files, path@) is None,
            },
    {
        let n = self.files.len();
        for i in 0..n
            invariant
                n == self.files@.len(),
                forall|j: int| 0 <= j < i ==> (#[trigger] files_view(self.files@)[j]).path
                    != path@,
        {
            if str_eq(self.files[i].path.as_str(), path) {
                proof {
                    lemma_find_path_skip(self@.files, path@, i as int);
                    assert(self@.files.skip(i as int)[0] == self@.files[i as int]);
                }
                return Some(i);
            }
            proof {
                assert((files_view(self.files@)[i as int]).path == self.files@[i as int].path@);
            }
        }
        proof {
            lemma_find_path_skip(self@.files, path@, n as int);
            assert(self@.files.skip(n as int).len() == 0);
        }
        None
    }

    /// Applies a validated configuration under its source path; see
    /// [`registry_applied`].
    #[verifier::rlimit(80)]
    pub fn apply_config(&mut self, path: &str, cfg: &Vec<(String, TaskOptions)>, now: u64) -> (
        acts: Vec<Action>)
        requires
            old(self).wf(),
            unique_names(cfg_view(cfg@)),
            forall|i: int| 0 <= i < cfg@.len() ==> (#[trigger] cfg@[i]).1.wf(),
            old(self).next_id + cfg@.len() <= usize::MAX,
        ensures
            final(self)@ == registry_applied(old(self)@, path@, cfg_view(cfg@), now),
            acts_view(acts@) == registry_apply_actions(old(self)@, path@, cfg_view(cfg@), now),
            final(self).wf(),
    {
        let ghost r0 = self@;
        let ghost cfg0 = cfg_view(cfg@);
        match self.find_path_index(path) {
            Some(i) => {
                proof {
                    lemma_find_path_found(r0.files, path@);
                    assert(r0.files[i as int].wf());
                    assert forall|j1: int, j2: int|
                        0 <= j1 < j2 < r0.files[i as int].tasks.len() implies (
                    #[trigger] r0.files[i as int].tasks[j1]).1.id != (
                    #[trigger] r0.files[i as int].tasks[j2]).1.id by {
                        assert(r0.ids_unique());
                    }
                    lemma_reconciled_ids(r0.files[i as int].tasks, cfg0, now, r0.next_id);
                }
                let mut nid = self.next_id;
                let acts = self.files[i].update(cfg, &mut nid, now);
                self.next_id = nid;
                proof {
                    let fr = file_reconciled(r0.files[i as int].tasks, cfg0, now, r0.next_id);
                    assert(self@.files =~= r0.files.update(
                        i as int,
                        FileView { path: r0.files[i as int].path, tasks: fr.tasks },
                    ));
                    assert(self@ =~= registry_applied(r0, path@, cfg0, now));
                    let r2 = self@;
                    assert forall|a: int| 0 <= a < r2.files.len() implies (
                    #[trigger] r2.files[a]).wf() by {
                        if a != i as int {
                            assert(r2.files[a] == r0.files[a]);
                        }
                    }
                    assert forall|a: int, b: int|
                        0 <= a < r2.files.len() && 0 <= b < r2.files[a].tasks.len() implies (
                    #[trigger] r2.files[a].tasks[b]).1.id < r2.next_id by {
                        if a == i as int {
                            assert(fr.tasks[b].1.id < fr.next_id);
                        } else {
                            assert(r2.files[a] == r0.files[a]);
                            assert(r0.files[a].tasks[b].1.id < r0.next_id);
                        }
                    }
                    assert forall|a1: int, b1: int, a2: int, b2: int|
                        0 <= a1 < r2.files.len() && 0 <= b1 < r2.files[a1].tasks.len() && 0 <= a2
                            < r2.files.len() && 0 <= b2 < r2.files[a2].tasks.len() && (a1 != a2
                            || b1 != b2) implies (#[trigger] r2.files[a1].tasks[b1]).1.id != (
                    #[trigger] r2.files[a2].tasks[b2]).1.id by {
                        if a1 == i as int && a2 == i as int {
                            assert(fr.tasks[b1].1.id != fr.tasks[b2].1.id);
                        } else if a1 == i as int {
                            assert(r2.files[a2] == r0.files[a2]);
                            assert(r0.files[a2].tasks[b2].1.id < r0.next_id);
                            if exists|m: int|
                                0 <= m < r0.files[a1].tasks.len() && fr.tasks[b1].1.id
                                    == r0.files[a1].tasks[m].1.id {
                                let m = choose|m: int|
                                    0 <= m < r0.files[a1].tasks.len() && fr.tasks[b1].1.id
                                        == r0.files[a1].tasks[m].1.id;
                                assert(r0.files[a1].tasks[m].1.id
                                    != r0.files[a2].tasks[b2].1.id);
                            }
                        } else if a2 == i as int {
                            assert(r2.files[a1] == r0.files[a1]);
                            assert(r0.files[a1].tasks[b1].1.id < r0.next_id);
                            if exists|m: int|
                                0 <= m < r0.files[a2].tasks.len() && fr.tasks[b2].1.id
                                    == r0.files[a2].tasks[m].1.id {
                                let m = choose|m: int|
                                    0 <= m < r0.files[a2].tasks.len() && fr.tasks[b2].1.id
                                        == r0.files[a2].tasks[m].1.id;
                                assert(r0.files[a2].tasks[m].1.id
                                    != r0.files[a1].tasks[b1].1.id);
                            }
                        } else {
                            assert(r2.files[a1] == r0.files[a1]);
                            assert(r2.files[a2] == r0.files[a2]);
                        }
                    }
                    assert forall|a: int, b: int|
                        0 <= a < b < r2.files.len() implies (#[trigger] r2.files[a]).path != (
                    #[trigger] r2.files[b]).path by {
                        assert(r2.files[a].path == r0.files[a].path);
                        assert(r2.files[b].path == r0.files[b].path);
                    }
                }
                acts
            },
            None => {
                proof {
                    lemma_find_path_found(r0.files, path@);
                    lemma_reconciled_ids(
                        Seq::<(Seq<char>, TaskView)>::empty(),
                        cfg0,
                        now,
                        r0.next_id,
                    );
                }
                let mut file = TaskFile { path: path.to_owned(), tasks: Vec::new() };
                proof {
                    assert(file@.tasks =~= Seq::<(Seq<char>, TaskView)>::empty());
                }
                let mut nid = self.next_id;
                let acts = file.update(cfg, &mut nid, now);
                self.next_id = nid;
                self.files.push(file);
                proof {
                    let fr = file_reconciled(
                        Seq::<(Seq<char>, TaskView)>::empty(),
                        cfg0,
                        now,
                        r0.next_id,
                    );
                    assert(self@.files =~= r0.files.push(
                        FileView { path: path@, tasks: fr.tasks },
                    ));
                    assert(self@ =~= registry_applied(r0, path@, cfg0, now));
                    let r2 = self@;
                    let fi = r0.files.len() as int;
                    assert forall|a: int| 0 <= a < r2.files.len() implies (
                    #[trigger] r2.files[a]).wf() by {
                        if a != fi {
                            assert(r2.files[a] == r0.files[a]);
                        }
                    }
                    assert forall|a: int, b: int|
                        0 <= a < r2.files.len() && 0 <= b < r2.files[a].tasks.len() implies (
                    #[trigger] r2.files[a].tasks[b]).1.id < r2.next_id by {
                        if a == fi {
                            assert(fr.tasks[b].1.id < fr.next_id);
                        } else {
                            assert(r2.files[a] == r0.files[a]);
                            assert(r0.files[a].tasks[b].1.id < r0.next_id);
                        }
                    }
                    assert forall|a1: int, b1: int, a2: int, b2: int|
                        0 <= a1 < r2.files.len() && 0 <= b1 < r2.files[a1].tasks.len() && 0 <= a2
                            < r2.files.len() && 0 <= b2 < r2.files[a2].tasks.len() && (a1 != a2
                            || b1 != b2) implies (#[trigger] r2.files[a1].tasks[b1]).1.id != (
                    #[trigger] r2.files[a2].tasks[b2]).1.id by {
                        if a1 == fi && a2 == fi {
                            assert(fr.tasks[b1].1.id != fr.tasks[b2].1.id);
                        } else if a1 == fi {
                            assert(r2.files[a2] == r0.files[a2]);
                            assert(r0.files[a2].tasks[b2].1.id < r0.next_id);
                            assert(r0.next_id <= fr.tasks[b1].1.id);
                        } else if a2 == fi {
                            assert(r2.files[a1] == r0.files[a1]);
                            assert(r0.files[a1].tasks[b1].1.id < r0.next_id);
                            assert(r0.next_id <= fr.tasks[b2].1.id);
                        } else {
                            assert(r2.files[a1] == r0.files[a1]);
                            assert(r2.files[a2] == r0.files[a2]);
                        }
                    }
                    assert forall|a: int, b: int|
                        0 <= a < b < r2.files.len() implies (#[trigger] r2.files[a]).path != (
                    #[trigger] r2.files[b]).path by {
                        if b == fi {
                            assert(r2.files[a] == r0.files[a]);
                        } else {
                            assert(r2.files[a] == r0.files[a]);
                            assert(r2.files[b] == r0.files[b]);
                        }
                    }
                }
                acts
            },
        }
    }

    /// Unloads a source: kills every task of it and forgets it. A path
    /// that is not loaded is ignored.
    pub fn unload(&mut self, path: &str, now: u64) -> (acts: Vec<Action>)
        requires
            old(self).wf(),
        ensures
            final(self)@ == registry_unloaded(old(self)@, path@, now),
            acts_view(acts@) == registry_unload_actions(old(self)@, path@, now),
            final(self).wf(),
    {
        let ghost r0 = self@;
        match self.find_path_index(path) {
            Some(i) => {
                let mut file = self.files.remove(i);
                let acts = file.stop(now);
                proof {
                    assert(self@.files =~= r0.files.remove(i as int));
                    assert(self@ =~= registry_unloaded(r0, path@, now));
                    let r2 = self@;
                    assert forall|a: int|
                        0 <= a < r2.files.len() implies (#[trigger] r2.files[a]).wf() && (
                    exists|o: int| 0 <= o < r0.files.len() && r2.files[a] == r0.files[o]) by {
                        let o = if a < i as int {
                            a
                        } else {
                            a + 1
                        };
                        assert(r2.files[a] == r0.files[o]);
                    }
                    assert forall|a: int, b: int|
                        0 <= a < b < r2.files.len() implies (#[trigger] r2.files[a]).path != (
                    #[trigger] r2.files[b]).path by {
                        let oa = if a < i as int {
                            a
                        } else {
                            a + 1
                        };
                        let ob = if b < i as int {
                            b
                        } else {
                            b + 1
                        };
                        assert(r2.files[a] == r0.files[oa]);
                        assert(r2.files[b] == r0.files[ob]);
                    }
                    assert forall|a: int, b: int|
                        0 <= a < r2.files.len() && 0 <= b < r2.files[a].tasks.len() implies (
                    #[trigger] r2.files[a].tasks[b]).1.id < r2.next_id by {
                        let o = if a < i as int {
                            a
                        } else {
                            a + 1
                        };
                        assert(r2.files[a] == r0.files[o]);
                        assert(r0.files[o].tasks[b].1.id < r0.next_id);
                    }
                    assert forall|a1: int, b1: int, a2: int, b2: int|
                        0 <= a1 < r2.files.len() && 0 <= b1 < r2.files[a1].tasks.len() && 0 <= a2
                            < r2.files.len() && 0 <= b2 < r2.files[a2].tasks.len() && (a1 != a2
                            || b1 != b2) implies (#[trigger] r2.files[a1].tasks[b1]).1.id != (
                    #[trigger] r2.files[a2].tasks[b2]).1.id by {
                        let o1 = if a1 < i as int {
                            a1
                        } else {
                            a1 + 1
                        };
                        let o2 = if a2 < i as int {
                            a2
                        } else {
                            a2 + 1
                        };
                        assert(r2.files[a1] == r0.files[o1]);
                        assert(r2.files[a2] == r0.files[o2]);
                        assert(r0.files[o1].tasks[b1].1.id != r0.files[o2].tasks[b2].1.id);
                    }
                }
                acts
            },
            None => {
                let acts: Vec<Action> = Vec::new();
                proof {
                    assert(acts_view(acts@) =~= Seq::<ActionView>::empty());
                }
                acts
            },
        }
    }

    /// One health tick over every task of every source.
    pub fn tick(&mut self, polls: &Vec<PollEvent>, now: u64) -> (acts: Vec<Action>)
        requires
            old(self).wf(),
        ensures
            final(self)@ == registry_ticked(old(self)@, polls@, now),
            acts_view(acts@) == registry_tick_actions(old(self)@, polls@, now),
            final(self).wf(),
    {
        let ghost r0 = self@;
        let n = self.files.len();
        let mut acts: Vec<Action> = Vec::new();
        for i in 0..n
            invariant
                n == self.files@.len(),
                n == r0.files.len(),
                r0 == old(self)@,
                self.next_id == old(self).next_id,
                old(self).wf(),
                forall|j: int|
                    0 <= j < n ==> (#[trigger] self.files@[j]).wf() && self.files@[j]@ == (if i
                        <= j {
                        r0.files[j]
                    } else {
                        FileView {
                            path: r0.files[j].path,
                            tasks: tasks_ticked(r0.files[j].tasks, polls@, now),
                        }
                    }),
                forall|j: int|
                    0 <= j < i ==> tasks_ids_same(
                        r0.files[j].tasks,
                        (#[trigger] files_view(self.files@)[j]).tasks,
                    ),
                acts_view(acts@) == registry_tick_actions_upto(r0, polls@, now, i as int),
        {
            proof {
                assert(r0.files[i as int] == files_view(self.files@)[i as int]);
            }
            let mut a = self.files[i].tick(polls, now);
            acts.append(&mut a);
            proof {
                assert(acts_view(acts@) =~= registry_tick_actions_upto(r0, polls@, now, i + 1));
            }
        }
        proof {
            assert(self@.files =~= registry_ticked(r0, polls@, now).files);
            assert(self@ =~= registry_ticked(r0, polls@, now));
            lemma_wf_same_ids(r0, self@);
        }
        acts
    }

    /// Stops, then starts, every task of every source.
    pub fn restart_all(&mut self, now: u64) -> (acts: Vec<Action>)
        requires
            old(self).wf(),
        ensures
            final(self)@ == registry_restarted(old(self)@, now),
            acts_view(acts@) == registry_restart_actions(old(self)@, now),
            final(self).wf(),
    {
        let ghost r0 = self@;
        let n = self.files.len();
        let mut acts: Vec<Action> = Vec::new();
        for i in 0..n
            invariant
                n == self.files@.len(),
                n == r0.files.len(),
                r0 == old(self)@,
                self.next_id == old(self).next_id,
                old(self).wf(),
                forall|j: int|
                    0 <= j < n ==> (#[trigger] self.files@[j]).wf() && self.files@[j]@ == (if i
                        <= j {
                        r0.files[j]
                    } else {
                        FileView {
                            path: r0.files[j].path,
                            tasks: tasks_started(tasks_stopped(r0.files[j].tasks, now), now),
                        }
                    }),
                forall|j: int|
                    0 <= j < i ==> tasks_ids_same(
                        r0.files[j].tasks,
                        (#[trigger] files_view(self.files@)[j]).tasks,
                    ),
                acts_view(acts@) == registry_restart_actions_upto(r0, now, i as int),
        {
            proof {
                assert(r0.files[i as int] == files_view(self.files@)[i as int]);
            }
            let mut a = self.files[i].stop(now);
            let ghost astop = a@;
            acts.append(&mut a);
            let mut b = self.files[i].start(now);
            let ghost bstart = b@;
            acts.append(&mut b);
            proof {
                assert(acts_view(acts@) =~= registry_restart_actions_upto(r0, now, i as int)
                    + acts_view(astop) + acts_view(bstart));
                assert(acts_view(acts@) =~= registry_restart_actions_upto(r0, now, i + 1));
                assert forall|j: int|
                    0 <= j <= i implies tasks_ids_same(
                    r0.files[j].tasks,
                    (#[trigger] files_view(self.files@)[j]).tasks,
                ) by {
                }
            }
        }
        proof {
            assert(self@.files =~= registry_restarted(r0, now).files);
            assert(self@ =~= registry_restarted(r0, now));
            lemma_wf_same_ids(r0, self@);
        }
        acts
    }

    /// The indices of the task with this id.
    pub fn find_by_id(&self, id: usize) -> (r: Option<(usize, usize)>)
        ensures
            match r {
                Some((fi, ti)) => fi < self@.files.len() && ti < self@.files[
                    fi as int
                ].tasks.len() && self@.files[fi as int].tasks[ti as int].1.id == id,
                None => forall|i: int, j: int|
                    0 <= i < self@.files.len() && 0 <= j < self@.files[i].tasks.len() ==> (
                    #[trigger] self@.files[i].tasks[j]).1.id != id,
            },
    {
        let n = self.files.len();
        for i in 0..n
            invariant
                n == self.files@.len(),
                forall|a: int, b: int|
                    0 <= a < i && 0 <= b < self@.files[a].tasks.len() ==> (
                    #[trigger] self@.files[a].tasks[b]).1.id != id,
        {
            let m = self.files[i].tasks.len();
            for j in 0..m
                invariant
                    n == self.files@.len(),
                    i < n,
                    m == self.files@[i as int].tasks@.len(),
                    forall|a: int, b: int|
                        0 <= a < i && 0 <= b < self@.files[a].tasks.len() ==> (
                        #[trigger] self@.files[a].tasks[b]).1.id != id,
                    forall|b: int|
                        0 <= b < j ==> (#[trigger] self@.files[i as int].tasks[b]).1.id != id,
            {
                if self.files[i].tasks[j].1.id == id {
                    proof {
                        assert(self@.files[i as int].tasks[j as int].1.id == id);
                    }
                    return Some((i, j));
                }
                proof {
                    assert(self@.files[i as int].tasks[j as int].1.id
                        == self.files@[i as int].tasks@[j as int].1.id);
                }
            }
        }
        None
    }

    /// Starts the task with this id; `None` when the id resolves to no
    /// task.
    pub fn start_task(&mut self, id: usize, now: u64) -> (r: Option<Vec<Action>>)
        requires
            old(self).wf(),
        ensures
            r is None <==> (forall|i: int, j: int|
                0 <= i < old(self)@.files.len() && 0 <= j < old(self)@.files[i].tasks.len() ==> (
                #[trigger] old(self)@.files[i].tasks[j]).1.id != id),
            r is None ==> final(self)@ == old(self)@,
            r matches Some(acts) ==> exists|fi: int, ti: int|
                0 <= fi < old(self)@.files.len() && 0 <= ti < old(self)@.files[fi].tasks.len()
                    && (#[trigger] old(self)@.files[fi].tasks[ti]).1.id == id && final(self)@
                    == (RegistryView {
                    files: old(self)@.files.update(
                        fi,
                        FileView {
                            path: old(self)@.files[fi].path,
                            tasks: old(self)@.files[fi].tasks.update(
                                ti,
                                (
                                    old(self)@.files[fi].tasks[ti].0,
                                    task_started(old(self)@.files[fi].tasks[ti].1, now),
                                ),
                            ),
                        },
                    ),
                    next_id: old(self)@.next_id,
                }) && acts_view(acts@) == task_start_actions(old(self)@.files[fi].tasks[ti].1),
            final(self).wf(),
    {
        let ghost r0 = self@;
        match self.find_by_id(id) {
            Some((fi, ti)) => {
                proof {
                    assert(r0.files[fi as int].wf());
                    assert(r0.files[fi as int].tasks[ti as int].1.wf());
                    assert(retries_ok(r0.files[fi as int].tasks[ti as int].1));
                }
                let acts = self.files[fi].tasks[ti].1.start(now);
                proof {
                    assert forall|i: int|
                        0 <= i < self.files@.len() && i != fi as int implies (
                    #[trigger] self.files@[i]).wf() by {
                        assert(self.files@[i] == old(self).files@[i]);
                    }
                    assert forall|j: int|
                        0 <= j < self.files@[fi as int].tasks@.len() implies (
                    #[trigger] self.files@[fi as int].tasks@[j]).1.wf() by {
                        if j != ti as int {
                            assert(self.files@[fi as int].tasks@[j] == old(self).files@[
                                fi as int
                            ].tasks@[j]);
                        }
                    }
                    self.lemma_one_task_changed(r0, fi as int, ti as int);
                }
                Some(acts)
            },
            None => None,
        }
    }

    /// Gracefully stops the task with this id; `None` when the id
    /// resolves to no task.
    pub fn stop_task(&mut self, id: usize, now: u64) -> (r: Option<Vec<Action>>)
        requires
            old(self).wf(),
        ensures
            r is None <==> (forall|i: int, j: int|
                0 <= i < old(self)@.files.len() && 0 <= j < old(self)@.files[i].tasks.len() ==> (
                #[trigger] old(self)@.files[i].tasks[j]).1.id != id),
            r is None ==> final(self)@ == old(self)@,
            r matches Some(acts) ==> exists|fi: int, ti: int|
                0 <= fi < old(self)@.files.len() && 0 <= ti < old(self)@.files[fi].tasks.len()
                    && (#[trigger] old(self)@.files[fi].tasks[ti]).1.id == id && final(self)@
                    == (RegistryView {
                    files: old(self)@.files.update(
                        fi,
                        FileView {
                            path: old(self)@.files[fi].path,
                            tasks: old(self)@.files[fi].tasks.update(
                                ti,
                                (
                                    old(self)@.files[fi].tasks[ti].0,
                                    task_graceful_stopped(old(self)@.files[fi].tasks[ti].1, now),
                                ),
                            ),
                        },
                    ),
                    next_id: old(self)@.next_id,
                }) && acts_view(acts@) == task_graceful_actions(old(self)@.files[fi].tasks[ti].1),
            final(self).wf(),
    {
        let ghost r0 = self@;
        match self.find_by_id(id) {
            Some((fi, ti)) => {
                proof {
                    assert(r0.files[fi as int].wf());
                    assert(r0.files[fi as int].tasks[ti as int].1.wf());
                    assert(retries_ok(r0.files[fi as int].tasks[ti as int].1));
                }
                let acts = self.files[fi].tasks[ti].1.graceful_stop(now);
                proof {
                    assert forall|i: int|
                        0 <= i < self.files@.len() && i != fi as int implies (
                    #[trigger] self.files@[i]).wf() by {
                        assert(self.files@[i] == old(self).files@[i]);
                    }
                    assert forall|j: int|
                        0 <= j < self.files@[fi as int].tasks@.len() implies (
                    #[trigger] self.files@[fi as int].tasks@[j]).1.wf() by {
                        if j != ti as int {
                            assert(self.files@[fi as int].tasks@[j] == old(self).files@[
                                fi as int
                            ].tasks@[j]);
                        }
                    }
                    self.lemma_one_task_changed(r0, fi as int, ti as int);
                }
                Some(acts)
            },
            None => None,
        }
    }

    /// Forcibly stops, then starts, the task with this id; `None` when the
    /// id resolves to no task.
    pub fn restart_task(&mut self, id: usize, now: u64) -> (r: Option<Vec<Action>>)
        requires
            old(self).wf(),
        ensures
            r is None <==> (forall|i: int, j: int|
                0 <= i < old(self)@.files.len() && 0 <= j < old(self)@.files[i].tasks.len() ==> (
                #[trigger] old(self)@.files[i].tasks[j]).1.id != id),
            r is None ==> final(self)@ == old(self)@,
            r matches Some(acts) ==> exists|fi: int, ti: int|
                0 <= fi < old(self)@.files.len() && 0 <= ti < old(self)@.files[fi].tasks.len()
                    && (#[trigger] old(self)@.files[fi].tasks[ti]).1.id == id && final(self)@
                    == (RegistryView {
                    files: old(self)@.files.update(
                        fi,
                        FileView {
                            path: old(self)@.files[fi].path,
                            tasks: old(self)@.files[fi].tasks.update(
                                ti,
                                (
                                    old(self)@.files[fi].tasks[ti].0,
                                    task_started(
                                        task_stopped(old(self)@.files[fi].tasks[ti].1, now),
                                        now,
                                    ),
                                ),
                            ),
                        },
                    ),
                    next_id: old(self)@.next_id,
                }) && acts_view(acts@) == task_stop_actions(old(self)@.files[fi].tasks[ti].1)
                    + task_start_actions(task_stopped(old(self)@.files[fi].tasks[ti].1, now)),
            final(self).wf(),
    {
        let ghost r0 = self@;
        match self.find_by_id(id) {
            Some((fi, ti)) => {
                proof {
                    assert(r0.files[fi as int].wf());
                    assert(r0.files[fi as int].tasks[ti as int].1.wf());
                    assert(retries_ok(r0.files[fi as int].tasks[ti as int].1));
                }
                let mut acts = self.files[fi].tasks[ti].1.stop(now);
                let mut b = self.files[fi].tasks[ti].1.start(now);
                let ghost bv = b@;
                acts.append(&mut b);
                proof {
                    assert(acts_view(acts@) =~= task_stop_actions(
                        r0.files[fi as int].tasks[ti as int].1,
                    ) + task_start_actions(
                        task_stopped(r0.files[fi as int].tasks[ti as int].1, now),
                    ));
                    assert(r0.files[fi as int].tasks.update(
                        ti as int,
                        (
                            r0.files[fi as int].tasks[ti as int].0,
                            task_stopped(r0.files[fi as int].tasks[ti as int].1, now),
                        ),
                    ).update(
                        ti as int,
                        (
                            r0.files[fi as int].tasks[ti as int].0,
                            task_started(
                                task_stopped(r0.files[fi as int].tasks[ti as int].1, now),
                                now,
                            ),
                        ),
                    ) =~= r0.files[fi as int].tasks.update(
                        ti as int,
                        (
                            r0.files[fi as int].tasks[ti as int].0,
                            task_started(
                                task_stopped(r0.files[fi as int].tasks[ti as int].1, now),
                                now,
                            ),
                        ),
                    ));
                    assert forall|i: int|
                        0 <= i < self.files@.len() && i != fi as int implies (
                    #[trigger] self.files@[i]).wf() by {
                        assert(self.files@[i] == old(self).files@[i]);
                    }
                    assert forall|j: int|
                        0 <= j < self.files@[fi as int].tasks@.len() implies (
                    #[trigger] self.files@[fi as int].tasks@[j]).1.wf() by {
                        if j != ti as int {
                            assert(self.files@[fi as int].tasks@[j] == old(self).files@[
                                fi as int
                            ].tasks@[j]);
                        }
                    }
                    self.lemma_one_task_changed(r0, fi as int, ti as int);
                }
                Some(acts)
            },
            None => None,
        }
    }

    /// After one task of one source changed without touching its name, id
    /// or options, the registry is still well formed and equals the
    /// pointwise update of the old view.
    proof fn lemma_one_task_changed(&self, r0: RegistryView, fi: int, ti: int)
        requires
            r0.wf(),
            self@.files.len() == r0.files.len(),
            0 <= fi < r0.files.len(),
            0 <= ti < r0.files[fi].tasks.len(),
            self@.next_id == r0.next_id,
            forall|i: int| 0 <= i < r0.files.len() && i != fi ==> #[trigger] self@.files[i]
                == r0.files[i],
            self@.files[fi].path == r0.files[fi].path,
            self@.files[fi].tasks.len() == r0.files[fi].tasks.len(),
            forall|j: int|
                0 <= j < r0.files[fi].tasks.len() && j != ti ==> #[trigger] self@.files[
                    fi
                ].tasks[j] == r0.files[fi].tasks[j],
            self@.files[fi].tasks[ti].0 == r0.files[fi].tasks[ti].0,
            self@.files[fi].tasks[ti].1.id == r0.files[fi].tasks[ti].1.id,
            self@.files[fi].tasks[ti].1.options == r0.files[fi].tasks[ti].1.options,
            self@.files[fi].tasks[ti].1.wf(),
            retries_ok(self@.files[fi].tasks[ti].1),
            forall|i: int|
                0 <= i < self.files@.len() && i != fi ==> (#[trigger] self.files@[i]).wf(),
            forall|j: int|
                0 <= j < self.files@[fi].tasks@.len() ==> (#[trigger] self.files@[fi].tasks@[j]).1.wf(),
        ensures
            self@.wf(),
            self.wf(),
            self@ == (RegistryView {
                files: r0.files.update(
                    fi,
                    FileView { path: r0.files[fi].path, tasks: self@.files[fi].tasks },
                ),
                next_id: r0.next_id,
            }),
            self@.files[fi].tasks == r0.files[fi].tasks.update(ti, self@.files[fi].tasks[ti]),
    {
        let r2 = self@;
        assert forall|i: int| 0 <= i < r2.files.len() implies tasks_ids_same(
            r0.files[i].tasks,
            (#[trigger] r2.files[i]).tasks,
        ) by {
            if i != fi {
                assert(r2.files[i] == r0.files[i]);
            }
        }
        assert forall|i: int| 0 <= i < r2.files.len() implies (#[trigger] r2.files[i]).wf() by {
            if i != fi {
                assert(r2.files[i] == r0.files[i]);
            } else {
                assert(r0.files[fi].wf());
                assert forall|a: int, b: int|
                    0 <= a < b < r2.files[fi].tasks.len() implies (
                #[trigger] r2.files[fi].tasks[a]).0 != (#[trigger] r2.files[fi].tasks[b]).0 by {
                    assert(r2.files[fi].tasks[a].0 == r0.files[fi].tasks[a].0);
                    assert(r2.files[fi].tasks[b].0 == r0.files[fi].tasks[b].0);
                }
                assert forall|a: int|
                    0 <= a < r2.files[fi].tasks.len() implies (
                #[trigger] r2.files[fi].tasks[a]).1.wf() && retries_ok(
                    r2.files[fi].tasks[a].1,
                ) by {
                    if a != ti {
                        assert(r2.files[fi].tasks[a] == r0.files[fi].tasks[a]);
                    }
                }
            }
        }
        lemma_wf_same_ids(r0, r2);
        assert(r2.files =~= r0.files.update(
            fi,
            FileView { path: r0.files[fi].path, tasks: r2.files[fi].tasks },
        ));
        assert(r2 =~= (RegistryView {
            files: r0.files.update(
                fi,
                FileView { path: r0.files[fi].path, tasks: r2.files[fi].tasks },
            ),
            next_id: r0.next_id,
        }));
        assert(r2.files[fi].tasks =~= r0.files[fi].tasks.update(ti, r2.files[fi].tasks[ti]));
    }

    /// Records the outcome of a spawn that an earlier action asked for.
    /// A report that no longer matches a waiting unit (the task is gone,
    /// the slot is gone, or the slot already holds a live child) is
    /// dropped.
    pub fn record_spawn_result(
        &mut self,
        task_id: usize,
        unit_index: usize,
        now: u64,
        res: crate::unit::SpawnResult,
    )
        requires
            old(self).wf(),
        ensures
            final(self).wf(),
            (forall|i: int, j: int|
                0 <= i < old(self)@.files.len() && 0 <= j < old(self)@.files[i].tasks.len() ==> (
                #[trigger] old(self)@.files[i].tasks[j]).1.id != task_id) ==> final(self)@
                == old(self)@,
            forall|fi: int, ti: int|
                0 <= fi < old(self)@.files.len() && 0 <= ti < old(self)@.files[fi].tasks.len()
                    && (#[trigger] old(self)@.files[fi].tasks[ti]).1.id == task_id && unit_index
                    < old(self)@.files[fi].tasks[ti].1.units.len() && !old(self)@.files[
                    fi
                ].tasks[ti].1.units[unit_index as int].live() ==> final(self)@ == (RegistryView {
                    files: old(self)@.files.update(
                        fi,
                        FileView {
                            path: old(self)@.files[fi].path,
                            tasks: old(self)@.files[fi].tasks.update(
                                ti,
                                (
                                    old(self)@.files[fi].tasks[ti].0,
                                    TaskView {
                                        units: old(self)@.files[fi].tasks[ti].1.units.update(
                                            unit_index as int,
                                            crate::unit::unit_spawn_recorded(
                                                old(self)@.files[fi].tasks[ti].1.units[
                                                    unit_index as int
                                                ],
                                                now,
                                                res@,
                                            ),
                                        ),
                                        ..old(self)@.files[fi].tasks[ti].1
                                    },
                                ),
                            ),
                        },
                    ),
                    next_id: old(self)@.next_id,
                }),
    {
        let ghost r0 = self@;
        match self.find_by_id(task_id) {
            Some((fi, ti)) => {
                if unit_index < self.files[fi].tasks[ti].1.processes.len() {
                    if !self.files[fi].tasks[ti].1.processes[unit_index].is_live() {
                        proof {
                            assert(r0.files[fi as int].wf());
                            assert(r0.files[fi as int].tasks[ti as int].1.wf());
                            assert(retries_ok(r0.files[fi as int].tasks[ti as int].1));
                        }
                        self.files[fi].tasks[ti].1.record_spawn(unit_index, now, res);
                        proof {
                            assert forall|i: int|
                                0 <= i < self.files@.len() && i != fi as int implies (
                            #[trigger] self.files@[i]).wf() by {
                                assert(self.files@[i] == old(self).files@[i]);
                            }
                            assert forall|j: int|
                                0 <= j < self.files@[fi as int].tasks@.len() implies (
                            #[trigger] self.files@[fi as int].tasks@[j]).1.wf() by {
                                if j != ti as int {
                                    assert(self.files@[fi as int].tasks@[j] == old(self).files@[
                                        fi as int
                                    ].tasks@[j]);
                                }
                            }
                            self.lemma_one_task_changed(r0, fi as int, ti as int);
                            assert forall|a: int, b: int|
                                0 <= a < r0.files.len() && 0 <= b < r0.files[a].tasks.len() && (
                                r0.files[a].tasks[b].1.id == task_id) implies (a == fi as int && b
                                == ti as int) by {
                                assert(r0.ids_unique());
                            }
                        }
                    }
                }
            },
            None => {},
        }
    }

    /// The paths of every loaded source, in load order.
    pub fn source_paths(&self) -> (r: Vec<String>)
        ensures
            r@.len() == self@.files.len(),
            forall|i: int| 0 <= i < r@.len() ==> (#[trigger] r@[i])@ == self@.files[i].path,
    {
        let n = self.files.len();
        let mut r: Vec<String> = Vec::new();
        for i in 0..n
            invariant
                n == self.files@.len(),
                r@.len() == i,
                forall|j: int| 0 <= j < i ==> (#[trigger] r@[j])@ == self@.files[j].path,
        {
            r.push(self.files[i].path.clone());
        }
        r
    }
}

} // verus!
