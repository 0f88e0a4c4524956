//! Human-readable status reports, with their text pinned down character
//! by character.

use vstd::prelude::*;

use crate::age_secs;
use crate::options::{AutoRestart, OptionsView, TaskOptions};
use crate::registry::{RegistryView, TaskFiles};
use crate::source::FileView;
use crate::task::{Task, TaskView};
use crate::text::{dec_digits, dec_digits_i64, push_dec, push_dec_i64};
use crate::unit::{ProcessUnit, StateView, UnitView};

verus! {

/// The status line of one unit: its state with its age, then how old the
/// unit is and how often it was respawned.
pub open spec fn spec_unit_status(u: UnitView, opts: OptionsView, now: u64) -> Seq<char> {
    (match u.state {
        StateView::NotRunning => "\x1b[90mNot running"@,
        StateView::LaunchFailed { at, err } => "\x1b[91mLaunch failed ("@ + dec_digits(
            age_secs(at, now) as nat,
        ) + "s ago): "@ + err,
        StateView::Running { since, pid } => "\x1b[92m"@ + (if age_secs(since, now)
            >= opts.starttime_sec {
            "Running"@
        } else {
            "Starting..."@
        }) + " (started "@ + dec_digits(age_secs(since, now) as nat) + "s ago with pid "@
            + dec_digits(pid as nat) + ")"@,
        StateView::Stopping { at } => "\x1b[93mStopping... ("@ + dec_digits(
            age_secs(at, now) as nat,
        ) + "s ago)"@,
        StateView::Exited { at, code } => "\x1b[91mExited ("@ + dec_digits(
            age_secs(at, now) as nat,
        ) + "s ago) with code "@ + dec_digits_i64(code as int),
        StateView::Stopped { at } => "\x1b[93mStopped ("@ + dec_digits(age_secs(at, now) as nat)
            + "s ago)"@,
        StateView::Killed { at } => "\x1b[93mKilled ("@ + dec_digits(age_secs(at, now) as nat)
            + "s ago)"@,
    }) + ("\x1b[90m (created "@ + dec_digits(age_secs(u.created_at, now) as nat) + "s ago, "@
        + dec_digits(u.retries_count as nat) + " retries)\x1b[0m"@)
}

/// The status lines of the first `n` units of a task, one per line,
/// indented and numbered by slot.
pub open spec fn spec_task_status_upto(t: TaskView, ident: Seq<char>, now: u64, n: int) -> Seq<
    char,
>
    decreases n,
{
    if n <= 0 {
        Seq::empty()
    } else {
        spec_task_status_upto(t, ident, now, n - 1) + ident + "["@ + dec_digits((n - 1) as nat)
            + "] -> "@ + spec_unit_status(t.units[n - 1], t.options, now) + "\n"@
    }
}

/// The status report of a task.
pub open spec fn spec_task_status(t: TaskView, ident: Seq<char>, now: u64) -> Seq<char> {
    spec_task_status_upto(t, ident, now, t.units.len() as int)
}

/// The heading and status of the first `n` tasks of a source.
pub open spec fn spec_file_status_upto(f: FileView, now: u64, n: int) -> Seq<char>
    decreases n,
{
    if n <= 0 {
        Seq::empty()
    } else {
        spec_file_status_upto(f, now, n - 1) + "\n  "@ + f.tasks[n - 1].0 + " (id "@ + dec_digits(
            f.tasks[n - 1].1.id as nat,
        ) + "):\n"@ + spec_task_status(f.tasks[n - 1].1, "    "@, now)
    }
}

/// The status report of a source.
pub open spec fn spec_file_status(f: FileView, now: u64) -> Seq<char> {
    f.path + ":\n"@ + spec_file_status_upto(f, now, f.tasks.len() as int)
}

/// The status report of the first `n` sources, separated by blank lines.
pub open spec fn spec_registry_status_upto(r: RegistryView, now: u64, n: int) -> Seq<char>
    decreases n,
{
    if n <= 0 {
        Seq::empty()
    } else {
        spec_registry_status_upto(r, now, n - 1) + (if n - 1 > 0 {
            "\n"@
        } else {
            Seq::empty()
        }) + spec_file_status(r.files[n - 1], now)
    }
}

/// The status report of the whole registry, grouped by source and task.
pub open spec fn spec_registry_status(r: RegistryView, now: u64) -> Seq<char> {
    spec_registry_status_upto(r, now, r.files.len() as int)
}

impl ProcessUnit {
    /// Renders the status line of this unit; see [`spec_unit_status`].
    pub fn status(&self, opts: &TaskOptions, now: u64) -> (r: String)
        ensures
            r@ == spec_unit_status(self@, opts@, now),
    {
        let mut s = String::new();
        match &self.state {
            crate::unit::UnitState::NotRunning => {
                s.append("\x1b[90mNot running");
            },
            crate::unit::UnitState::LaunchFailed { at, err } => {
                s.append("\x1b[91mLaunch failed (");
                push_dec(&mut s, crate::elapsed_secs(*at, now));
                s.append("s ago): ");
                s.append(err.as_str());
            },
            crate::unit::UnitState::Running { since, pid } => {
                s.append("\x1b[92m");
                if crate::elapsed_secs(*since, now) >= opts.starttime_sec {
                    s.append("Running");
                } else {
                    s.append("Starting...");
                }
                s.append(" (started ");
                push_dec(&mut s, crate::elapsed_secs(*since, now));
                s.append("s ago with pid ");
                push_dec(&mut s, *pid as u64);
                s.append(")");
            },
            crate::unit::UnitState::Stopping { at } => {
                s.append("\x1b[93mStopping... (");
                push_dec(&mut s, crate::elapsed_secs(*at, now));
                s.append("s ago)");
            },
            crate::unit::UnitState::Exited { at, code } => {
                s.append("\x1b[91mExited (");
                push_dec(&mut s, crate::elapsed_secs(*at, now));
                s.append("s ago) with code ");
                push_dec_i64(&mut s, *code as i64);
            },
            crate::unit::UnitState::Stopped { at } => {
                s.append("\x1b[93mStopped (");
                push_dec(&mut s, crate::elapsed_secs(*at, now));
                s.append("s ago)");
            },
            crate::unit::UnitState::Killed { at } => {
                s.append("\x1b[93mKilled (");
                push_dec(&mut s, crate::elapsed_secs(*at, now));
                s.append("s ago)");
            },
        }
        s.append("\x1b[90m (created ");
        push_dec(&mut s, crate::elapsed_secs(self.created_at, now));
        s.append("s ago, ");
        push_dec(&mut s, self.retries_count);
        s.append(" retries)\x1b[0m");
        proof {
            assert(s@ =~= spec_unit_status(self@, opts@, now));
        }
        s
    }
}

impl Task {
    /// Renders the status of every unit; see [`spec_task_status`].
    #[verifier::loop_isolation(false)]
    pub fn status(&self, ident: &str, now: u64) -> (r: String)
        ensures
            r@ == spec_task_status(self@, ident@, now),
    {
        let mut s = String::new();
        let n = self.processes.len();
        for i in 0..n
            invariant
                n == self.processes@.len(),
                s@ == spec_task_status_upto(self@, ident@, now, i as int),
        {
            s.append(ident);
            s.append("[");
            push_dec(&mut s, i as u64);
            s.append("] -> ");
            let line = self.processes[i].status(&self.options, now);
            s.append(line.as_str());
            s.append("\n");
            proof {
                assert(self.processes@[i as int]@ == self@.units[i as int]);
                assert(s@ =~= spec_task_status_upto(self@, ident@, now, i + 1));
            }
        }
        s
    }
}

impl crate::source::TaskFile {
    /// Renders the heading and status of every task of this source; see
    /// [`spec_file_status`].
    #[verifier::rlimit(100)]
    pub fn status(&self, now: u64) -> (r: String)
        ensures
            r@ == spec_file_status(self@, now),
    {
        let mut s = String::new();
        s.append(self.path.as_str());
        s.append(":\n");
        let m = self.tasks.len();
        let ghost head = s@;
        for j in 0..m
            invariant
                m == self.tasks@.len(),
                head == self@.path + ":\n"@,
                s@ == head + spec_file_status_upto(self@, now, j as int),
        {
            s.append("\n  ");
            s.append(self.tasks[j].0.as_str());
            s.append(" (id ");
            push_dec(&mut s, self.tasks[j].1.id as u64);
            s.append("):\n");
            let body = self.tasks[j].1.status("    ", now);
            s.append(body.as_str());
            proof {
                assert(self.tasks@[j as int].0@ == self@.tasks[j as int].0);
                assert(self.tasks@[j as int].1@ == self@.tasks[j as int].1);
                assert(s@ =~= head + spec_file_status_upto(self@, now, j + 1));
            }
        }
        proof {
            assert(s@ =~= spec_file_status(self@, now));
        }
        s
    }
}

impl TaskFiles {
    /// Renders the status of every source; see [`spec_registry_status`].
    #[verifier::rlimit(100)]
    pub fn status(&self, now: u64) -> (r: String)
        ensures
            r@ == spec_registry_status(self@, now),
    {
        let mut s = String::new();
        let n = self.files.len();
        for i in 0..n
            invariant
                n == self.files@.len(),
                s@ == spec_registry_status_upto(self@, now, i as int),
        {
            if i > 0 {
                s.append("\n");
            }
            let body = self.files[i].status(now);
            s.append(body.as_str());
            proof {
                assert(self.files@[i as int]@ == self@.files[i as int]);
                assert(s@ =~= spec_registry_status_upto(self@, now, i + 1));
            }
        }
        s
    }
}

/// The words of the command line, separated by single spaces.
pub open spec fn spec_argv_text_upto(argv: Seq<String>, n: int) -> Seq<char>
    decreases n,
{
    if n <= 0 {
        Seq::empty()
    } else {
        spec_argv_text_upto(argv, n - 1) + (if n - 1 > 0 {
            " "@
        } else {
            Seq::empty()
        }) + argv[n - 1]@
    }
}

/// The expected exit codes, separated by single spaces.
pub open spec fn spec_codes_text_upto(codes: Seq<i32>, n: int) -> Seq<char>
    decreases n,
{
    if n <= 0 {
        Seq::empty()
    } else {
        spec_codes_text_upto(codes, n - 1) + (if n - 1 > 0 {
            " "@
        } else {
            Seq::empty()
        }) + dec_digits_i64(codes[n - 1] as int)
    }
}

/// The environment pairs as `key=value`, separated by single spaces.
pub open spec fn spec_env_text_upto(env: Seq<(String, String)>, n: int) -> Seq<char>
    decreases n,
{
    if n <= 0 {
        Seq::empty()
    } else {
        spec_env_text_upto(env, n - 1) + (if n - 1 > 0 {
            " "@
        } else {
            Seq::empty()
        }) + env[n - 1].0@ + "="@ + env[n - 1].1@
    }
}

/// An optional path, a dash when absent.
pub open spec fn spec_opt_path_text(p: Option<String>) -> Seq<char> {
    match p {
        Some(s) => s@,
        None => "-"@,
    }
}

/// `true` or `false`.
pub open spec fn spec_bool_text(b: bool) -> Seq<char> {
    if b {
        "true"@
    } else {
        "false"@
    }
}

/// The respawn policy's name, with the expected codes where it has them.
pub open spec fn spec_policy_text(a: AutoRestart) -> Seq<char> {
    match a {
        AutoRestart::Always => "always"@,
        AutoRestart::Never => "never"@,
        AutoRestart::Unexpected(codes) => "unexpected ["@ + spec_codes_text_upto(
            codes@,
            codes@.len() as int,
        ) + "]"@,
    }
}

/// One line per option of a task's configured record.
pub open spec fn spec_options_text(o: TaskOptions) -> Seq<char> {
    "cmd: "@ + spec_argv_text_upto(o.argv@, o.argv@.len() as int) + "\nnumprocs: "@ + dec_digits(
        o.numprocs as nat,
    ) + "\nautostart: "@ + spec_bool_text(o.autostart) + "\nautorestart: "@ + spec_policy_text(
        o.autorestart,
    ) + "\nstarttime: "@ + dec_digits(o.starttime_sec as nat) + "\nretries: "@ + dec_digits(
        o.retries as nat,
    ) + "\nstopsignal: "@ + dec_digits_i64(o.stopsignal as int) + "\nstoptime: "@ + dec_digits(
        o.stoptime_sec as nat,
    ) + "\nstdout: "@ + spec_opt_path_text(o.stdout) + "\nstderr: "@ + spec_opt_path_text(
        o.stderr,
    ) + "\nenv: "@ + spec_env_text_upto(o.env@, o.env@.len() as int) + "\nworkingdir: "@
        + spec_opt_path_text(o.workingdir) + "\numask: "@ + dec_digits(o.umask as nat)
}

fn push_opt_path(s: &mut String, p: &Option<String>)
    ensures
        final(s)@ == old(s)@ + spec_opt_path_text(*p),
{
    match p {
        Some(path) => s.append(path.as_str()),
        None => s.append("-"),
    }
}

/// Renders the option record of a task; see [`spec_options_text`].
#[verifier::rlimit(100)]
pub fn options_text(o: &TaskOptions) -> (r: String)
    ensures
        r@ == spec_options_text(*o),
{
    let mut s = String::new();
    s.append("cmd: ");
    let na = o.argv.len();
    let ghost base = s@;
    for i in 0..na
        invariant
            na == o.argv@.len(),
            s@ == base + spec_argv_text_upto(o.argv@, i as int),
    {
        if i > 0 {
            s.append(" ");
        }
        s.append(o.argv[i].as_str());
        proof {
            assert(s@ =~= base + spec_argv_text_upto(o.argv@, i + 1));
        }
    }
    s.append("\nnumprocs: ");
    push_dec(&mut s, o.numprocs);
    s.append("\nautostart: ");
    if o.autostart {
        s.append("true");
    } else {
        s.append("false");
    }
    s.append("\nautorestart: ");
    match &o.autorestart {
        AutoRestart::Always => s.append("always"),
        AutoRestart::Never => s.append("never"),
        AutoRestart::Unexpected(codes) => {
            s.append("unexpected [");
            let nc = codes.len();
            let ghost cbase = s@;
            for i in 0..nc
                invariant
                    nc == codes@.len(),
                    s@ == cbase + spec_codes_text_upto(codes@, i as int),
            {
                if i > 0 {
                    s.append(" ");
                }
                push_dec_i64(&mut s, codes[i] as i64);
                proof {
                    assert(s@ =~= cbase + spec_codes_text_upto(codes@, i + 1));
                }
            }
            s.append("]");
        },
    }
    s.append("\nstarttime: ");
    push_dec(&mut s, o.starttime_sec);
    s.append("\nretries: ");
    push_dec(&mut s, o.retries);
    s.append("\nstopsignal: ");
    push_dec_i64(&mut s, o.stopsignal as i64);
    s.append("\nstoptime: ");
    push_dec(&mut s, o.stoptime_sec);
    s.append("\nstdout: ");
    push_opt_path(&mut s, &o.stdout);
    s.append("\nstderr: ");
    push_opt_path(&mut s, &o.stderr);
    s.append("\nenv: ");
    let ne = o.env.len();
    let ghost ebase = s@;
    for i in 0..ne
        invariant
            ne == o.env@.len(),
            s@ == ebase + spec_env_text_upto(o.env@, i as int),
    {
        if i > 0 {
            s.append(" ");
        }
        s.append(o.env[i].0.as_str());
        s.append("=");
        s.append(o.env[i].1.as_str());
        proof {
            assert(s@ =~= ebase + spec_env_text_upto(o.env@, i + 1));
        }
    }
    s.append("\nworkingdir: ");
    push_opt_path(&mut s, &o.workingdir);
    s.append("\numask: ");
    push_dec(&mut s, o.umask as u64);
    proof {
        assert(s@ =~= spec_options_text(*o));
    }
    s
}

} // verus!
