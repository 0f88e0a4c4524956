//! The control plane: loading configuration text into the registry,
//! reloading every source, and the dispatch of one client request to
//! exactly one response.

use vstd::prelude::*;

use crate::conf::{
    from_conf, parse_config, parsed_docs, spec_error_message, spec_from_conf, ConfigError,
};
use crate::options::OptionsView;
use crate::protocol::{RequestView, ResultView, TaskmasterDaemonRequest, TaskmasterDaemonResult};
use crate::registry::{
    find_path, lemma_find_path_skip, registry_applied, registry_apply_actions,
    registry_restart_actions, registry_restarted, registry_unload_actions, registry_unloaded,
    RegistryView, TaskFiles,
};
use crate::render::{spec_options_text, spec_registry_status, spec_task_status};
use crate::source::{cfg_view, file_reconciled, FileView};
use crate::task::{
    acts_view, task_graceful_actions, task_graceful_stopped, task_started, task_start_actions,
    task_stopped, task_stop_actions, Action, ActionView,
};

verus! {

/// The error text a failed load reports.
pub open spec fn spec_load_error(path: Seq<char>, e: ConfigError) -> Seq<char> {
    "Failed to load "@ + path + ": "@ + spec_error_message(e)
}

/// What loading this text against this id budget comes to: the validated
/// configuration, or the error to report.
pub open spec fn load_outcome(text: Option<String>, nid: usize) -> Result<
    Seq<(Seq<char>, OptionsView)>,
    ConfigError,
> {
    match text {
        None => Err(ConfigError::Unreadable),
        Some(t) => match parsed_docs(t@) {
            None => Err(ConfigError::Unparsable),
            Some(docs) => match spec_from_conf(docs) {
                Err(e) => Err(e),
                Ok(cfg) => if nid + cfg.len() <= usize::MAX {
                    Ok(cfg)
                } else {
                    Err(ConfigError::TooManyPrograms)
                },
            },
        },
    }
}

fn load_error_text(path: &str, e: ConfigError) -> (r: String)
    ensures
        r@ == spec_load_error(path@, e),
{
    let mut s = String::new();
    s.append("Failed to load ");
    s.append(path);
    s.append(": ");
    s.append(e.message());
    proof {
        assert(s@ =~= spec_load_error(path@, e));
    }
    s
}

/// The line one source's failed reload adds to the report.
pub open spec fn spec_reload_error(path: Seq<char>, e: ConfigError) -> Seq<char> {
    "\n  - Failed to reload "@ + path + ": "@ + spec_error_message(e)
}

/// The registry and report after every source is reloaded from its text:
/// a source whose text validates is reconciled; one whose text does not
/// is left as it is and contributes one line to the error report.
#[verifier::ext_equal]
pub struct Reloaded {
    pub files: Seq<FileView>,
    pub acts: Seq<ActionView>,
    pub errors: Seq<char>,
    pub next_id: usize,
}

pub open spec fn registry_reloaded(
    files: Seq<FileView>,
    texts: Seq<Option<String>>,
    now: u64,
    nid: usize,
) -> Reloaded
    decreases files.len(),
{
    if files.len() == 0 {
        Reloaded { files: Seq::empty(), acts: Seq::empty(), errors: Seq::empty(), next_id: nid }
    } else {
        let f = files[0];
        match load_outcome(texts[0], nid) {
            Ok(cfg) => {
                let fr = file_reconciled(f.tasks, cfg, now, nid);
                let rest = registry_reloaded(
                    files.drop_first(),
                    texts.drop_first(),
                    now,
                    fr.next_id,
                );
                Reloaded {
                    files: seq![FileView { path: f.path, tasks: fr.tasks }] + rest.files,
                    acts: fr.acts + rest.acts,
                    errors: rest.errors,
                    next_id: rest.next_id,
                }
            },
            Err(e) => {
                let rest = registry_reloaded(files.drop_first(), texts.drop_first(), now, nid);
                Reloaded {
                    files: seq![f] + rest.files,
                    acts: rest.acts,
                    errors: spec_reload_error(f.path, e) + rest.errors,
                    next_id: rest.next_id,
                }
            },
        }
    }
}

impl TaskFiles {
    /// Loads the configuration text read from a source path: parses and
    /// validates it, and applies it under the path. On any failure the
    /// registry is unchanged and the error text carries the path and the
    /// reason. `None` stands for a file that could not be read.
    pub fn load(&mut self, path: &str, text: Option<String>, now: u64) -> (r: Result<
        Vec<Action>,
        String,
    >)
        requires
            old(self).wf(),
        ensures
            final(self).wf(),
            match load_outcome(text, old(self).next_id) {
                Ok(cfg) => r matches Ok(acts) && final(self)@ == registry_applied(
                    old(self)@,
                    path@,
                    cfg,
                    now,
                ) && acts_view(acts@) == registry_apply_actions(old(self)@, path@, cfg, now),
                Err(e) => r matches Err(m) && m@ == spec_load_error(path@, e) && final(self)@
                    == old(self)@,
            },
    {
        let t = match text {
            Some(t) => t,
            None => {
                return Err(load_error_text(path, ConfigError::Unreadable));
            },
        };
        let docs = match parse_config(t.as_str()) {
            Some(d) => d,
            None => {
                return Err(load_error_text(path, ConfigError::Unparsable));
            },
        };
        let cfg = match from_conf(&docs) {
            Ok(c) => c,
            Err(e) => {
                return Err(load_error_text(path, e));
            },
        };
        if self.next_id > usize::MAX - cfg.len() {
            proof {
                assert(cfg_view(cfg@).len() == cfg@.len());
            }
            return Err(load_error_text(path, ConfigError::TooManyPrograms));
        }
        proof {
            assert(cfg_view(cfg@).len() == cfg@.len());
        }
        let acts = self.apply_config(path, &cfg, now);
        Ok(acts)
    }

    /// Reloads every source from the text its path holds now. `texts`
    /// carries one entry per loaded source, in source order. Failures do
    /// not stop the sweep; the returned report holds one line per failed
    /// source, and is empty when everything reloaded.
    #[verifier::loop_isolation(false)]
    #[verifier::rlimit(100)]
    pub fn reload_all(&mut self, texts: &Vec<Option<String>>, now: u64) -> (r: (
        Vec<Action>,
        String,
    ))
        requires
            old(self).wf(),
            texts@.len() == old(self)@.files.len(),
        ensures
            final(self).wf(),
            final(self)@.files == registry_reloaded(
                old(self)@.files,
                texts@,
                now,
                old(self).next_id,
            ).files,
            acts_view(r.0@) == registry_reloaded(
                old(self)@.files,
                texts@,
                now,
                old(self).next_id,
            ).acts,
            r.1@ == registry_reloaded(old(self)@.files, texts@, now, old(self).next_id).errors,
            final(self)@.next_id == registry_reloaded(
                old(self)@.files,
                texts@,
                now,
                old(self).next_id,
            ).next_id,
    {
        let ghost r0 = self@;
        let ghost rl = registry_reloaded(r0.files, texts@, now, self.next_id);
        let mut acts: Vec<Action> = Vec::new();
        let mut errors = String::new();
        let n = self.files.len();
        proof {
            assert(r0.files.skip(0) =~= r0.files);
            assert(texts@.skip(0) =~= texts@);
            assert(self@.files.take(0) + rl.files =~= rl.files);
            assert(acts_view(acts@) + rl.acts =~= rl.acts);
            assert(errors@ + rl.errors =~= rl.errors);
        }
        for i in 0..n
            invariant
                self.files@.len() == n,
                self.wf(),
                forall|j: int| i <= j < n ==> (#[trigger] self@.files[j]) == r0.files[j],
                rl == (Reloaded {
                    files: self@.files.take(i as int) + registry_reloaded(
                        r0.files.skip(i as int),
                        texts@.skip(i as int),
                        now,
                        self.next_id,
                    ).files,
                    acts: acts_view(acts@) + registry_reloaded(
                        r0.files.skip(i as int),
                        texts@.skip(i as int),
                        now,
                        self.next_id,
                    ).acts,
                    errors: errors@ + registry_reloaded(
                        r0.files.skip(i as int),
                        texts@.skip(i as int),
                        now,
                        self.next_id,
                    ).errors,
                    next_id: registry_reloaded(
                        r0.files.skip(i as int),
                        texts@.skip(i as int),
                        now,
                        self.next_id,
                    ).next_id,
                }),
        {
            proof {
                assert(r0.files.skip(i as int)[0] == r0.files[i as int]);
                assert(texts@.skip(i as int)[0] == texts@[i as int]);
                assert(r0.files.skip(i as int).drop_first() =~= r0.files.skip(i + 1));
                assert(texts@.skip(i as int).drop_first() =~= texts@.skip(i + 1));
            }
            let ghost nid_before = self.next_id;
            let ghost acts0 = acts@;
            let ghost errors0 = errors@;
            let ghost files_before = self@.files;
            let path = self.files[i].path.clone();
            proof {
                assert(path@ == r0.files[i as int].path);
                assert forall|j: int| 0 <= j < i implies (#[trigger] self@.files[j]).path
                    != path@ by {
                    assert(self@.unique_paths());
                    assert(self@.files[j].path != self@.files[i as int].path);
                }
                lemma_find_path_skip(self@.files, path@, i as int);
                assert(self@.files.skip(i as int)[0] == self@.files[i as int]);
                assert(find_path(self@.files, path@) == Some(i as int));
            }
            let text_dup: Option<String> = match &texts[i] {
                Some(t) => Some(t.clone()),
                None => None,
            };
            proof {
                assert(text_dup == texts@[i as int]);
            }
            let outcome: Result<Vec<(String, crate::options::TaskOptions)>, ConfigError> = match
                text_dup {
                Some(t) => match parse_config(t.as_str()) {
                    Some(docs) => match from_conf(&docs) {
                        Ok(cfg) => {
                            if self.next_id > usize::MAX - cfg.len() {
                                proof {
                                    assert(cfg_view(cfg@).len() == cfg@.len());
                                }
                                Err(ConfigError::TooManyPrograms)
                            } else {
                                Ok(cfg)
                            }
                        },
                        Err(e) => Err(e),
                    },
                    None => Err(ConfigError::Unparsable),
                },
                None => Err(ConfigError::Unreadable),
            };
            match outcome {
                Ok(cfg) => {
                    proof {
                        assert(load_outcome(texts@[i as int], nid_before) == Ok::<
                            _,
                            ConfigError,
                        >(cfg_view(cfg@)));
                        assert(cfg_view(cfg@).len() == cfg@.len());
                    }
                    let mut a = self.apply_config(path.as_str(), &cfg, now);
                    let ghost av = a@;
                    acts.append(&mut a);
                    proof {
                        let fr = file_reconciled(
                            r0.files[i as int].tasks,
                            cfg_view(cfg@),
                            now,
                            nid_before,
                        );
                        assert(self@.files == files_before.update(
                            i as int,
                            FileView { path: r0.files[i as int].path, tasks: fr.tasks },
                        ));
                        assert(acts_view(acts@) =~= acts_view(acts0) + acts_view(av));
                        assert(self@.files.take(i + 1) =~= files_before.take(i as int).push(
                            FileView { path: r0.files[i as int].path, tasks: fr.tasks },
                        ));
                        assert(self@.files.take(i as int) =~= files_before.take(i as int));
                        assert(self@.files.take(i as int) + (seq![
                            FileView { path: r0.files[i as int].path, tasks: fr.tasks },
                        ] + registry_reloaded(
                            r0.files.skip(i + 1),
                            texts@.skip(i + 1),
                            now,
                            self.next_id,
                        ).files) =~= self@.files.take(i + 1) + registry_reloaded(
                            r0.files.skip(i + 1),
                            texts@.skip(i + 1),
                            now,
                            self.next_id,
                        ).files);
                        assert(acts_view(acts0) + (acts_view(av) + registry_reloaded(
                            r0.files.skip(i + 1),
                            texts@.skip(i + 1),
                            now,
                            self.next_id,
                        ).acts) =~= acts_view(acts@) + registry_reloaded(
                            r0.files.skip(i + 1),
                            texts@.skip(i + 1),
                            now,
                            self.next_id,
                        ).acts);
                        assert forall|j: int|
                            i + 1 <= j < n implies (#[trigger] self@.files[j])
                            == r0.files[j] by {
                            assert(self@.files[j] == files_before[j]);
                        }
                    }
                },
                Err(e) => {
                    proof {
                        assert(load_outcome(texts@[i as int], nid_before) == Err::<
                            Seq<(Seq<char>, OptionsView)>,
                            _,
                        >(e));
                    }
                    errors.append("\n  - Failed to reload ");
                    errors.append(path.as_str());
                    errors.append(": ");
                    errors.append(e.message());
                    proof {
                        assert(errors@ =~= errors0 + spec_reload_error(
                            r0.files[i as int].path,
                            e,
                        ));
                        assert(self@.files.take(i + 1) =~= self@.files.take(i as int).push(
                            r0.files[i as int],
                        ));
                        assert(self@.files.take(i as int) + (seq![r0.files[i as int]]
                            + registry_reloaded(
                            r0.files.skip(i + 1),
                            texts@.skip(i + 1),
                            now,
                            self.next_id,
                        ).files) =~= self@.files.take(i + 1) + registry_reloaded(
                            r0.files.skip(i + 1),
                            texts@.skip(i + 1),
                            now,
                            self.next_id,
                        ).files);
                    }
                },
            }
        }
        proof {
            assert(r0.files.skip(n as int).len() == 0);
            assert(self@.files.take(n as int) =~= self@.files);
        }
        (acts, errors)
    }
}

/// Whether some task of the registry carries this id.
pub open spec fn has_task_id(r: RegistryView, id: usize) -> bool {
    exists|i: int, j: int|
        0 <= i < r.files.len() && 0 <= j < r.files[i].tasks.len() && (
        #[trigger] r.files[i].tasks[j]).1.id == id
}

/// Serves one request against the registry: every request gets exactly
/// one response, and the outside actions the decision asks for. For
/// `LoadFile` the caller passes the file's text; for `Reload` one text
/// per loaded source, in source order.
pub fn handle_client_request(
    tasks: &mut TaskFiles,
    req: TaskmasterDaemonRequest,
    texts: Vec<Option<String>>,
    now: u64,
) -> (r: (TaskmasterDaemonResult, Vec<Action>))
    requires
        old(tasks).wf(),
        req@ is Reload ==> texts@.len() == old(tasks)@.files.len(),
        req@ is LoadFile ==> texts@.len() == 1,
    ensures
        final(tasks).wf(),
        match req@ {
            RequestView::Status => final(tasks)@ == old(tasks)@ && r.1@.len() == 0 && (if old(
                tasks,
            )@.files.len() == 0 {
                r.0@ == ResultView::OkMsg("No tasks loaded yet"@)
            } else {
                r.0@ == ResultView::Raw(spec_registry_status(old(tasks)@, now))
            }),
            RequestView::Reload => {
                let rl = registry_reloaded(old(tasks)@.files, texts@, now, old(tasks).next_id);
                &&& final(tasks)@.files == rl.files
                &&& final(tasks)@.next_id == rl.next_id
                &&& acts_view(r.1@) == rl.acts
                &&& (if rl.errors.len() > 0 {
                    r.0@ == ResultView::ErrMsg(rl.errors)
                } else {
                    r.0@ == ResultView::Success
                })
            },
            RequestView::Restart => {
                &&& final(tasks)@ == registry_restarted(old(tasks)@, now)
                &&& acts_view(r.1@) == registry_restart_actions(old(tasks)@, now)
                &&& r.0@ == ResultView::Success
            },
            RequestView::StartTask(id) => {
                if has_task_id(old(tasks)@, id) {
                    r.0@ == ResultView::Success && exists|fi: int, ti: int|
                        0 <= fi < old(tasks)@.files.len() && 0 <= ti < old(tasks)@.files[
                            fi
                        ].tasks.len() && (#[trigger] old(tasks)@.files[fi].tasks[ti]).1.id == id
                            && final(tasks)@ == (RegistryView {
                            files: old(tasks)@.files.update(
                                fi,
                                FileView {
                                    path: old(tasks)@.files[fi].path,
                                    tasks: old(tasks)@.files[fi].tasks.update(
                                        ti,
                                        (
                                            old(tasks)@.files[fi].tasks[ti].0,
                                            task_started(old(tasks)@.files[fi].tasks[ti].1, now),
                                        ),
                                    ),
                                },
                            ),
                            next_id: old(tasks)@.next_id,
                        }) && acts_view(r.1@) == task_start_actions(
                            old(tasks)@.files[fi].tasks[ti].1,
                        )
                } else {
                    r.0@ == ResultView::ErrMsg("Task not found"@) && final(tasks)@ == old(tasks)@
                        && r.1@.len() == 0
                }
            },
            RequestView::StopTask(id) => {
                if has_task_id(old(tasks)@, id) {
                    r.0@ == ResultView::Success && exists|fi: int, ti: int|
                        0 <= fi < old(tasks)@.files.len() && 0 <= ti < old(tasks)@.files[
                            fi
                        ].tasks.len() && (#[trigger] old(tasks)@.files[fi].tasks[ti]).1.id == id
                            && final(tasks)@ == (RegistryView {
                            files: old(tasks)@.files.update(
                                fi,
                                FileView {
                                    path: old(tasks)@.files[fi].path,
                                    tasks: old(tasks)@.files[fi].tasks.update(
                                        ti,
                                        (
                                            old(tasks)@.files[fi].tasks[ti].0,
                                            task_graceful_stopped(
                                                old(tasks)@.files[fi].tasks[ti].1,
                                                now,
                                            ),
                                        ),
                                    ),
                                },
                            ),
                            next_id: old(tasks)@.next_id,
                        }) && acts_view(r.1@) == task_graceful_actions(
                            old(tasks)@.files[fi].tasks[ti].1,
                        )
                } else {
                    r.0@ == ResultView::ErrMsg("Task not found"@) && final(tasks)@ == old(tasks)@
                        && r.1@.len() == 0
                }
            },
            RequestView::RestartTask(id) => {
                if has_task_id(old(tasks)@, id) {
                    r.0@ == ResultView::Success && exists|fi: int, ti: int|
                        0 <= fi < old(tasks)@.files.len() && 0 <= ti < old(tasks)@.files[
                            fi
                        ].tasks.len() && (#[trigger] old(tasks)@.files[fi].tasks[ti]).1.id == id
                            && final(tasks)@ == (RegistryView {
                            files: old(tasks)@.files.update(
                                fi,
                                FileView {
                                    path: old(tasks)@.files[fi].path,
                                    tasks: old(tasks)@.files[fi].tasks.update(
                                        ti,
                                        (
                                            old(tasks)@.files[fi].tasks[ti].0,
                                            task_started(
                                                task_stopped(
                                                    old(tasks)@.files[fi].tasks[ti].1,
                                                    now,
                                                ),
                                                now,
                                            ),
                                        ),
                                    ),
                                },
                            ),
                            next_id: old(tasks)@.next_id,
                        }) && acts_view(r.1@) == task_stop_actions(
                            old(tasks)@.files[fi].tasks[ti].1,
                        ) + task_start_actions(
                            task_stopped(old(tasks)@.files[fi].tasks[ti].1, now),
                        )
                } else {
                    r.0@ == ResultView::ErrMsg("Task not found"@) && final(tasks)@ == old(tasks)@
                        && r.1@.len() == 0
                }
            },
            RequestView::InfoTask(id) => {
                if has_task_id(old(tasks)@, id) {
                    final(tasks)@ == old(tasks)@ && r.1@.len() == 0 && exists|fi: int, ti: int|
                        0 <= fi < old(tasks).files@.len() && 0 <= ti < old(tasks).files@[
                            fi
                        ].tasks@.len() && (#[trigger] old(tasks).files@[fi].tasks@[ti]).1.id == id
                            && r.0@ == ResultView::Raw(
                            spec_options_text(old(tasks).files@[fi].tasks@[ti].1.options) + "\n"@
                                + spec_task_status(
                                old(tasks).files@[fi].tasks@[ti].1@,
                                "  "@,
                                now,
                            ),
                        )
                } else {
                    r.0@ == ResultView::ErrMsg("Task not found"@) && final(tasks)@ == old(tasks)@
                        && r.1@.len() == 0
                }
            },
            RequestView::LoadFile(path) => {
                match load_outcome(texts@[0], old(tasks).next_id) {
                    Ok(cfg) => final(tasks)@ == registry_applied(old(tasks)@, path, cfg, now)
                        && acts_view(r.1@) == registry_apply_actions(old(tasks)@, path, cfg, now)
                        && r.0@ == ResultView::Success,
                    Err(e) => final(tasks)@ == old(tasks)@ && r.0@ == ResultView::ErrMsg(
                        spec_load_error(path, e),
                    ) && r.1@.len() == 0,
                }
            },
            RequestView::UnloadFile(path) => {
                &&& final(tasks)@ == registry_unloaded(old(tasks)@, path, now)
                &&& acts_view(r.1@) == registry_unload_actions(old(tasks)@, path, now)
                &&& r.0@ == ResultView::Success
            },
        },
{
    match req {
        TaskmasterDaemonRequest::Status => {
            let none: Vec<Action> = Vec::new();
            if tasks.files.len() == 0 {
                (TaskmasterDaemonResult::OkMsg(String::from_str("No tasks loaded yet")), none)
            } else {
                (TaskmasterDaemonResult::Raw(tasks.status(now)), none)
            }
        },
        TaskmasterDaemonRequest::Reload => {
            let (acts, errors) = tasks.reload_all(&texts, now);
            if errors.as_str().is_empty() {
                (TaskmasterDaemonResult::Success, acts)
            } else {
                (TaskmasterDaemonResult::ErrMsg(errors), acts)
            }
        },
        TaskmasterDaemonRequest::Restart => {
            let acts = tasks.restart_all(now);
            (TaskmasterDaemonResult::Success, acts)
        },
        TaskmasterDaemonRequest::StartTask(id) => {
            match tasks.start_task(id, now) {
                Some(acts) => (TaskmasterDaemonResult::Success, acts),
                None => (
                    TaskmasterDaemonResult::ErrMsg(String::from_str("Task not found")),
                    Vec::new(),
                ),
            }
        },
        TaskmasterDaemonRequest::StopTask(id) => {
            match tasks.stop_task(id, now) {
                Some(acts) => (TaskmasterDaemonResult::Success, acts),
                None => (
                    TaskmasterDaemonResult::ErrMsg(String::from_str("Task not found")),
                    Vec::new(),
                ),
            }
        },
        TaskmasterDaemonRequest::RestartTask(id) => {
            match tasks.restart_task(id, now) {
                Some(acts) => (TaskmasterDaemonResult::Success, acts),
                None => (
                    TaskmasterDaemonResult::ErrMsg(String::from_str("Task not found")),
                    Vec::new(),
                ),
            }
        },
        TaskmasterDaemonRequest::InfoTask(id) => {
            match tasks.find_by_id(id) {
                Some((fi, ti)) => {
                    let mut s = crate::render::options_text(&tasks.files[fi].tasks[ti].1.options);
                    s.append("\n");
                    let body = tasks.files[fi].tasks[ti].1.status("  ", now);
                    s.append(body.as_str());
                    proof {
                        assert(tasks.files@[fi as int].tasks@[ti as int].1@ == tasks@.files[
                            fi as int
                        ].tasks[ti as int].1);
                        assert(s@ =~= spec_options_text(
                            tasks.files@[fi as int].tasks@[ti as int].1.options,
                        ) + "\n"@ + spec_task_status(
                            tasks.files@[fi as int].tasks@[ti as int].1@,
                            "  "@,
                            now,
                        ));
                    }
                    (TaskmasterDaemonResult::Raw(s), Vec::new())
                },
                None => (
                    TaskmasterDaemonResult::ErrMsg(String::from_str("Task not found")),
                    Vec::new(),
                ),
            }
        },
        TaskmasterDaemonRequest::LoadFile(path) => {
            let mut texts = texts;
            let text = texts.remove(0);
            match tasks.load(path.as_str(), text, now) {
                Ok(acts) => (TaskmasterDaemonResult::Success, acts),
                Err(m) => (TaskmasterDaemonResult::ErrMsg(m), Vec::new()),
            }
        },
        TaskmasterDaemonRequest::UnloadFile(path) => {
            let acts = tasks.unload(path.as_str(), now);
            (TaskmasterDaemonResult::Success, acts)
        },
    }
}

} // verus!
