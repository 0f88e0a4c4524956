//! The configuration of one supervised program: the option record, its
//! mathematical view, value equality (environments compared as maps, exit
//! code lists as sets), signal-name parsing and umask interpretation.

use vstd::prelude::*;

use crate::text::str_eq;

verus! {

/// Policy for automatic respawn after a child dies.
#[derive(Debug)]
pub enum AutoRestart {
    /// Respawn after every death.
    Always,
    /// Never respawn.
    Never,
    /// Respawn unless the child exited with one of these expected codes.
    Unexpected(Vec<i32>),
}

/// Mathematical view of [`AutoRestart`]: expected exit codes as a set.
pub enum RestartPolicy {
    Always,
    Never,
    Unexpected(Set<i32>),
}

impl View for AutoRestart {
    type V = RestartPolicy;

    open spec fn view(&self) -> RestartPolicy {
        match self {
            AutoRestart::Always => RestartPolicy::Always,
            AutoRestart::Never => RestartPolicy::Never,
            AutoRestart::Unexpected(codes) => RestartPolicy::Unexpected(codes@.to_set()),
        }
    }
}

/// The options of one task, as validated from a configuration source.
#[derive(Debug)]
pub struct TaskOptions {
    /// Command line; the first element is the executable. Never empty.
    pub argv: Vec<String>,
    /// Target replica count.
    pub numprocs: u64,
    /// Start the task as soon as its source is loaded.
    pub autostart: bool,
    /// Respawn policy.
    pub autorestart: AutoRestart,
    /// Uptime in seconds before a running child counts as healthy.
    pub starttime_sec: u64,
    /// Maximum automatic respawns per process unit.
    pub retries: u64,
    /// Signal sent on graceful stop.
    pub stopsignal: i32,
    /// Grace period in seconds before a stopping child is killed.
    pub stoptime_sec: u64,
    /// Redirection target for the child's standard output.
    pub stdout: Option<String>,
    /// Redirection target for the child's standard error.
    pub stderr: Option<String>,
    /// Additional environment; keys are unique.
    pub env: Vec<(String, String)>,
    /// Working directory of the child.
    pub workingdir: Option<String>,
    /// Mask applied to the child's file mode creation mask.
    pub umask: u16,
}

/// The environment as a map; on duplicate keys the later pair wins.
pub open spec fn env_map(e: Seq<(String, String)>) -> Map<Seq<char>, Seq<char>>
    decreases e.len(),
{
    if e.len() == 0 {
        Map::empty()
    } else {
        env_map(e.drop_last()).insert(e.last().0@, e.last().1@)
    }
}

/// No two environment pairs share a key.
pub open spec fn unique_keys(e: Seq<(String, String)>) -> bool {
    forall|i: int, j: int| 0 <= i < j < e.len() ==> e[i].0@ != e[j].0@
}

/// Mathematical view of [`TaskOptions`]: sequences of characters,
/// the environment as a map.
#[verifier::ext_equal]
pub struct OptionsView {
    pub argv: Seq<Seq<char>>,
    pub numprocs: u64,
    pub autostart: bool,
    pub autorestart: RestartPolicy,
    pub starttime_sec: u64,
    pub retries: u64,
    pub stopsignal: i32,
    pub stoptime_sec: u64,
    pub stdout: Option<Seq<char>>,
    pub stderr: Option<Seq<char>>,
    pub env: Map<Seq<char>, Seq<char>>,
    pub workingdir: Option<Seq<char>>,
    pub umask: u16,
}

impl View for TaskOptions {
    type V = OptionsView;

    open spec fn view(&self) -> OptionsView {
        OptionsView {
            argv: self.argv.deep_view(),
            numprocs: self.numprocs,
            autostart: self.autostart,
            autorestart: self.autorestart@,
            starttime_sec: self.starttime_sec,
            retries: self.retries,
            stopsignal: self.stopsignal,
            stoptime_sec: self.stoptime_sec,
            stdout: self.stdout.deep_view(),
            stderr: self.stderr.deep_view(),
            env: env_map(self.env@),
            workingdir: self.workingdir.deep_view(),
            umask: self.umask,
        }
    }
}

impl TaskOptions {
    /// Validated options are well formed: a non-empty command line and an
    /// environment without duplicate keys.
    pub open spec fn wf(&self) -> bool {
        &&& self.argv.len() >= 1
        &&& unique_keys(self.env@)
    }
}

/// With unique keys, the environment map has exactly the pairs of the list.
pub proof fn lemma_env_map(e: Seq<(String, String)>)
    requires
        unique_keys(e),
    ensures
        forall|k: Seq<char>| #[trigger]
            env_map(e).contains_key(k) <==> exists|i: int| 0 <= i < e.len() && e[i].0@ == k,
        forall|i: int|
            0 <= i < e.len() ==> #[trigger] env_map(e)[e[i].0@] == e[i].1@,
    decreases e.len(),
{
    if e.len() > 0 {
        let head = e.drop_last();
        let last = e[e.len() - 1];
        assert(e.last() == last);
        assert forall|i: int, j: int| 0 <= i < j < head.len() implies head[i].0@
            != head[j].0@ by {
            assert(head[i] == e[i]);
            assert(head[j] == e[j]);
        }
        lemma_env_map(head);
        assert(env_map(e) == env_map(head).insert(last.0@, last.1@));
        assert forall|i: int| 0 <= i < e.len() implies #[trigger] env_map(e)[e[i].0@]
            == e[i].1@ by {
            if i < e.len() - 1 {
                assert(e[i].0@ != last.0@);
                assert(head[i] == e[i]);
                assert(env_map(head)[head[i].0@] == head[i].1@);
            }
        }
        assert forall|k: Seq<char>| #[trigger] env_map(e).contains_key(k) implies exists|i: int|
            0 <= i < e.len() && e[i].0@ == k by {
            if k != last.0@ {
                assert(env_map(head).contains_key(k));
                let i = choose|i: int| 0 <= i < head.len() && head[i].0@ == k;
                assert(head[i] == e[i]);
                assert(e[i].0@ == k);
            } else {
                assert(e[e.len() - 1].0@ == k);
            }
        }
        assert forall|k: Seq<char>|
            (exists|i: int| 0 <= i < e.len() && e[i].0@ == k) implies #[trigger] env_map(
            e,
        ).contains_key(k) by {
            let i = choose|i: int| 0 <= i < e.len() && e[i].0@ == k;
            if i < e.len() - 1 {
                assert(head[i] == e[i]);
                assert(head[i].0@ == k);
                assert(env_map(head).contains_key(k));
            }
        }
    }
}

/// Whether the pair list holds a pair with this key and value.
pub open spec fn has_pair(e: Seq<(String, String)>, k: Seq<char>, v: Seq<char>) -> bool {
    exists|i: int| 0 <= i < e.len() && e[i].0@ == k && #[trigger] e[i].1@ == v
}

/// Whether the list holds a pair equal (by view) to `(k, v)`.
fn env_has_pair(e: &Vec<(String, String)>, k: &String, v: &String) -> (r: bool)
    ensures
        r == has_pair(e@, k@, v@),
{
    let n = e.len();
    for i in 0..n
        invariant
            n == e@.len(),
            forall|j: int| 0 <= j < i ==> !(e@[j].0@ == k@ && #[trigger] e@[j].1@ == v@),
    {
        if str_eq(e[i].0.as_str(), k.as_str()) && str_eq(e[i].1.as_str(), v.as_str()) {
            assert(has_pair(e@, k@, v@));
            return true;
        }
    }
    false
}

/// Environment equality as maps.
fn env_equal(a: &Vec<(String, String)>, b: &Vec<(String, String)>) -> (r: bool)
    requires
        unique_keys(a@),
        unique_keys(b@),
    ensures
        r == (env_map(a@) == env_map(b@)),
{
    let na = a.len();
    for i in 0..na
        invariant
            na == a@.len(),
            unique_keys(a@),
            unique_keys(b@),
            forall|j: int| 0 <= j < i ==> #[trigger] has_pair(b@, a@[j].0@, a@[j].1@),
    {
        if !env_has_pair(b, &a[i].0, &a[i].1) {
            proof {
                lemma_env_map(a@);
                lemma_env_map(b@);
                let ka = a@[i as int].0@;
                assert(env_map(a@)[ka] == a@[i as int].1@);
                if env_map(b@).contains_key(ka) {
                    let m = choose|m: int| 0 <= m < b@.len() && b@[m].0@ == ka;
                    assert(env_map(b@)[b@[m].0@] == b@[m].1@);
                    assert(!(b@[m].0@ == ka && b@[m].1@ == a@[i as int].1@));
                }
            }
            return false;
        }
    }
    let nb = b.len();
    for i in 0..nb
        invariant
            nb == b@.len(),
            unique_keys(a@),
            unique_keys(b@),
            forall|j: int| 0 <= j < a@.len() ==> #[trigger] has_pair(b@, a@[j].0@, a@[j].1@),
            forall|j: int| 0 <= j < i ==> #[trigger] has_pair(a@, b@[j].0@, b@[j].1@),
    {
        if !env_has_pair(a, &b[i].0, &b[i].1) {
            proof {
                lemma_env_map(a@);
                lemma_env_map(b@);
                let kb = b@[i as int].0@;
                assert(env_map(b@)[kb] == b@[i as int].1@);
                if env_map(a@).contains_key(kb) {
                    let m = choose|m: int| 0 <= m < a@.len() && a@[m].0@ == kb;
                    assert(env_map(a@)[a@[m].0@] == a@[m].1@);
                    assert(!(a@[m].0@ == kb && a@[m].1@ == b@[i as int].1@));
                }
            }
            return false;
        }
    }
    proof {
        lemma_env_map(a@);
        lemma_env_map(b@);
        assert forall|k: Seq<char>| env_map(a@).contains_key(k) == env_map(b@).contains_key(
            k,
        ) by {
            if env_map(a@).contains_key(k) {
                let j = choose|j: int| 0 <= j < a@.len() && a@[j].0@ == k;
                assert(has_pair(b@, a@[j].0@, a@[j].1@));
                let m = choose|m: int|
                    0 <= m < b@.len() && b@[m].0@ == k && #[trigger] b@[m].1@ == a@[j].1@;
                assert(env_map(b@).contains_key(b@[m].0@));
            }
            if env_map(b@).contains_key(k) {
                let j = choose|j: int| 0 <= j < b@.len() && b@[j].0@ == k;
                assert(has_pair(a@, b@[j].0@, b@[j].1@));
                let m = choose|m: int|
                    0 <= m < a@.len() && a@[m].0@ == k && #[trigger] a@[m].1@ == b@[j].1@;
                assert(env_map(a@).contains_key(a@[m].0@));
            }
        }
        assert forall|k: Seq<char>| #[trigger]
            env_map(a@).contains_key(k) implies env_map(a@)[k] == env_map(b@)[k] by {
            let j = choose|j: int| 0 <= j < a@.len() && a@[j].0@ == k;
            assert(env_map(a@)[a@[j].0@] == a@[j].1@);
            assert(has_pair(b@, a@[j].0@, a@[j].1@));
            let m = choose|m: int|
                0 <= m < b@.len() && b@[m].0@ == k && #[trigger] b@[m].1@ == a@[j].1@;
            assert(env_map(b@)[b@[m].0@] == b@[m].1@);
        }
        assert(env_map(a@) =~= env_map(b@));
    }
    true
}

/// Whether `v` holds `c`.
pub fn contains_code(v: &Vec<i32>, c: i32) -> (r: bool)
    ensures
        r == v@.contains(c),
{
    let n = v.len();
    for i in 0..n
        invariant
            n == v@.len(),
            forall|j: int| 0 <= j < i ==> v@[j] != c,
    {
        if v[i] == c {
            return true;
        }
    }
    false
}

/// Exit code set equality.
fn codes_equal(a: &Vec<i32>, b: &Vec<i32>) -> (r: bool)
    ensures
        r == (a@.to_set() == b@.to_set()),
{
    let na = a.len();
    for i in 0..na
        invariant
            na == a@.len(),
            forall|j: int| 0 <= j < i ==> b@.contains(#[trigger] a@[j]),
    {
        if !contains_code(b, a[i]) {
            proof {
                assert(a@.to_set().contains(a@[i as int]));
                assert(!b@.to_set().contains(a@[i as int]));
            }
            return false;
        }
    }
    let nb = b.len();
    for i in 0..nb
        invariant
            nb == b@.len(),
            forall|j: int| 0 <= j < a@.len() ==> b@.contains(#[trigger] a@[j]),
            forall|j: int| 0 <= j < i ==> a@.contains(#[trigger] b@[j]),
    {
        if !contains_code(a, b[i]) {
            proof {
                assert(b@.to_set().contains(b@[i as int]));
                assert(!a@.to_set().contains(b@[i as int]));
            }
            return false;
        }
    }
    proof {
        assert forall|c: i32| a@.to_set().contains(c) == b@.to_set().contains(c) by {
            if a@.contains(c) {
                let j = choose|j: int| 0 <= j < a@.len() && a@[j] == c;
                assert(b@.contains(a@[j]));
            }
            if b@.contains(c) {
                let j = choose|j: int| 0 <= j < b@.len() && b@[j] == c;
                assert(a@.contains(b@[j]));
            }
        }
        assert(a@.to_set() =~= b@.to_set());
    }
    true
}

/// Command line equality.
fn argv_equal(a: &Vec<String>, b: &Vec<String>) -> (r: bool)
    ensures
        r == (a.deep_view() == b.deep_view()),
{
    if a.len() != b.len() {
        proof {
            assert(a.deep_view().len() != b.deep_view().len());
        }
        return false;
    }
    let n = a.len();
    for i in 0..n
        invariant
            n == a@.len() == b@.len(),
            forall|j: int| 0 <= j < i ==> a@[j]@ == #[trigger] b@[j]@,
    {
        if !str_eq(a[i].as_str(), b[i].as_str()) {
            proof {
                assert(a.deep_view()[i as int] != b.deep_view()[i as int]);
            }
            return false;
        }
    }
    proof {
        assert(a.deep_view() =~= b.deep_view());
    }
    true
}

/// Restart policy equality.
fn autorestart_equal(a: &AutoRestart, b: &AutoRestart) -> (r: bool)
    ensures
        r == (a@ == b@),
{
    match (a, b) {
        (AutoRestart::Always, AutoRestart::Always) => true,
        (AutoRestart::Never, AutoRestart::Never) => true,
        (AutoRestart::Unexpected(ca), AutoRestart::Unexpected(cb)) => codes_equal(ca, cb),
        _ => false,
    }
}

/// Optional path equality.
fn opt_str_equal(a: &Option<String>, b: &Option<String>) -> (r: bool)
    ensures
        r == (a.deep_view() == b.deep_view()),
{
    match (a, b) {
        (Option::None, Option::None) => true,
        (Option::Some(sa), Option::Some(sb)) => str_eq(sa.as_str(), sb.as_str()),
        _ => false,
    }
}

/// Value equality of two option records: every field compared by value,
/// the environment as a map of pairs, expected exit codes as a set.
pub fn options_equal(a: &TaskOptions, b: &TaskOptions) -> (r: bool)
    requires
        a.wf(),
        b.wf(),
    ensures
        r == (a@ == b@),
{
    let r = argv_equal(&a.argv, &b.argv) && a.numprocs == b.numprocs && a.autostart == b.autostart
        && autorestart_equal(&a.autorestart, &b.autorestart)
        && a.starttime_sec == b.starttime_sec && a.retries == b.retries
        && a.stopsignal == b.stopsignal && a.stoptime_sec == b.stoptime_sec
        && opt_str_equal(&a.stdout, &b.stdout) && opt_str_equal(&a.stderr, &b.stderr)
        && env_equal(&a.env, &b.env) && opt_str_equal(&a.workingdir, &b.workingdir)
        && a.umask == b.umask;
    proof {
        if r {
            assert(a@ =~= b@);
        }
    }
    r
}

/// A copy of the options, equal in view to the record it copies.
pub fn options_dup(o: &TaskOptions) -> (r: TaskOptions)
    ensures
        r@ == o@,
        r.wf() == o.wf(),
        r.argv.deep_view() == o.argv.deep_view(),
        r.env@ =~= o.env@,
{
    let mut argv: Vec<String> = Vec::new();
    let na = o.argv.len();
    for i in 0..na
        invariant
            na == o.argv@.len(),
            argv@.len() == i,
            forall|j: int| 0 <= j < i ==> argv@[j] == #[trigger] o.argv@[j],
    {
        argv.push(o.argv[i].clone());
    }
    let mut env: Vec<(String, String)> = Vec::new();
    let ne = o.env.len();
    for i in 0..ne
        invariant
            ne == o.env@.len(),
            env@.len() == i,
            forall|j: int| 0 <= j < i ==> env@[j] == #[trigger] o.env@[j],
    {
        env.push((o.env[i].0.clone(), o.env[i].1.clone()));
    }
    let autorestart = match &o.autorestart {
        AutoRestart::Always => AutoRestart::Always,
        AutoRestart::Never => AutoRestart::Never,
        AutoRestart::Unexpected(codes) => {
            let mut c: Vec<i32> = Vec::new();
            let nc = codes.len();
            for i in 0..nc
                invariant
                    nc == codes@.len(),
                    c@.len() == i,
                    forall|j: int| 0 <= j < i ==> c@[j] == #[trigger] codes@[j],
            {
                c.push(codes[i]);
            }
            proof {
                assert(c@ =~= codes@);
            }
            AutoRestart::Unexpected(c)
        },
    };
    let r = TaskOptions {
        argv,
        numprocs: o.numprocs,
        autostart: o.autostart,
        autorestart,
        starttime_sec: o.starttime_sec,
        retries: o.retries,
        stopsignal: o.stopsignal,
        stoptime_sec: o.stoptime_sec,
        stdout: dup_opt_str(&o.stdout),
        stderr: dup_opt_str(&o.stderr),
        env,
        workingdir: dup_opt_str(&o.workingdir),
        umask: o.umask,
    };
    proof {
        assert(r.argv@ =~= o.argv@);
        assert(r.argv.deep_view() =~= o.argv.deep_view());
        assert(r.env@ =~= o.env@);
        assert(r@ =~= o@);
    }
    r
}

/// A copy of an optional string.
fn dup_opt_str(s: &Option<String>) -> (r: Option<String>)
    ensures
        r.deep_view() == s.deep_view(),
        r is Some <==> s is Some,
{
    match s {
        Option::None => Option::None,
        Option::Some(p) => Option::Some(p.clone()),
    }
}

/// The signal number for a name, as the configuration accepts it.
pub open spec fn spec_signal(s: Seq<char>) -> Option<i32> {
    if s == "HUP"@ {
        Some(1)
    } else if s == "INT"@ {
        Some(2)
    } else if s == "QUIT"@ {
        Some(3)
    } else if s == "ILL"@ {
        Some(4)
    } else if s == "TRAP"@ {
        Some(5)
    } else if s == "ABRT"@ {
        Some(6)
    } else if s == "EMT"@ {
        Some(7)
    } else if s == "FPE"@ {
        Some(8)
    } else if s == "KILL"@ {
        Some(9)
    } else if s == "BUS"@ {
        Some(10)
    } else if s == "SEGV"@ {
        Some(11)
    } else if s == "SYS"@ {
        Some(12)
    } else if s == "PIPE"@ {
        Some(13)
    } else if s == "ALRM"@ {
        Some(14)
    } else if s == "TERM"@ {
        Some(15)
    } else if s == "URG"@ {
        Some(16)
    } else if s == "STOP"@ {
        Some(17)
    } else if s == "TSTP"@ {
        Some(18)
    } else if s == "CONT"@ {
        Some(19)
    } else if s == "CHLD"@ {
        Some(20)
    } else if s == "TTIN"@ {
        Some(21)
    } else if s == "TTOU"@ {
        Some(22)
    } else if s == "IO"@ {
        Some(23)
    } else if s == "XCPU"@ {
        Some(24)
    } else if s == "XFSZ"@ {
        Some(25)
    } else if s == "VTALRM"@ {
        Some(26)
    } else if s == "PROF"@ {
        Some(27)
    } else if s == "WINCH"@ {
        Some(28)
    } else if s == "INFO"@ {
        Some(29)
    } else if s == "USR1"@ {
        Some(30)
    } else if s == "USR2"@ {
        Some(31)
    } else {
        None
    }
}

/// Parses a signal name into its number; `None` for an unknown name.
pub fn parse_signal(sig: &str) -> (r: Option<i32>)
    ensures
        r == spec_signal(sig@),
{
    if str_eq(sig, "HUP") {
        Some(1)
    } else if str_eq(sig, "INT") {
        Some(2)
    } else if str_eq(sig, "QUIT") {
        Some(3)
    } else if str_eq(sig, "ILL") {
        Some(4)
    } else if str_eq(sig, "TRAP") {
        Some(5)
    } else if str_eq(sig, "ABRT") {
        Some(6)
    } else if str_eq(sig, "EMT") {
        Some(7)
    } else if str_eq(sig, "FPE") {
        Some(8)
    } else if str_eq(sig, "KILL") {
        Some(9)
    } else if str_eq(sig, "BUS") {
        Some(10)
    } else if str_eq(sig, "SEGV") {
        Some(11)
    } else if str_eq(sig, "SYS") {
        Some(12)
    } else if str_eq(sig, "PIPE") {
        Some(13)
    } else if str_eq(sig, "ALRM") {
        Some(14)
    } else if str_eq(sig, "TERM") {
        Some(15)
    } else if str_eq(sig, "URG") {
        Some(16)
    } else if str_eq(sig, "STOP") {
        Some(17)
    } else if str_eq(sig, "TSTP") {
        Some(18)
    } else if str_eq(sig, "CONT") {
        Some(19)
    } else if str_eq(sig, "CHLD") {
        Some(20)
    } else if str_eq(sig, "TTIN") {
        Some(21)
    } else if str_eq(sig, "TTOU") {
        Some(22)
    } else if str_eq(sig, "IO") {
        Some(23)
    } else if str_eq(sig, "XCPU") {
        Some(24)
    } else if str_eq(sig, "XFSZ") {
        Some(25)
    } else if str_eq(sig, "VTALRM") {
        Some(26)
    } else if str_eq(sig, "PROF") {
        Some(27)
    } else if str_eq(sig, "WINCH") {
        Some(28)
    } else if str_eq(sig, "INFO") {
        Some(29)
    } else if str_eq(sig, "USR1") {
        Some(30)
    } else if str_eq(sig, "USR2") {
        Some(31)
    } else {
        None
    }
}

/// Reads the decimal digits of `n` as an octal number: the mask `22`
/// in a configuration means `0o22`. `None` when a digit is `8` or `9`.
pub open spec fn spec_octal_of_decimal(n: nat) -> Option<nat>
    decreases n,
{
    if n < 10 {
        if n < 8 {
            Some(n)
        } else {
            None
        }
    } else {
        match spec_octal_of_decimal(n / 10) {
            Some(h) => if n % 10 < 8 {
                Some(h * 8 + n % 10)
            } else {
                None
            },
            None => None,
        }
    }
}

/// The mask a configured `umask` number denotes: its decimal digits read
/// as octal; every invalid value (negative, digits above 7, out of range)
/// falls back to `0o777`.
pub open spec fn spec_umask(n: int) -> u16 {
    if n < 0 {
        0o777
    } else {
        match spec_octal_of_decimal(n as nat) {
            Some(v) => if v <= 0xffff {
                v as u16
            } else {
                0o777
            },
            None => 0o777,
        }
    }
}

/// The octal reading never exceeds the decimal value.
proof fn lemma_octal_le(n: nat)
    ensures
        spec_octal_of_decimal(n) matches Some(v) ==> v <= n,
    decreases n,
{
    if n >= 10 {
        lemma_octal_le(n / 10);
    }
}

fn octal_of_decimal(n: u64) -> (r: Option<u64>)
    ensures
        match r {
            Some(v) => spec_octal_of_decimal(n as nat) == Some(v as nat),
            None => spec_octal_of_decimal(n as nat) is None,
        },
    decreases n,
{
    proof {
        lemma_octal_le(n as nat);
    }
    if n < 10 {
        if n < 8 {
            Some(n)
        } else {
            None
        }
    } else {
        match octal_of_decimal(n / 10) {
            Some(h) => {
                proof {
                    lemma_octal_le(n as nat / 10);
                }
                if n % 10 < 8 {
                    Some(h * 8 + n % 10)
                } else {
                    None
                }
            },
            None => None,
        }
    }
}

/// Interprets a configured `umask` number; see [`spec_umask`].
pub fn umask_of(n: i64) -> (r: u16)
    ensures
        r == spec_umask(n as int),
{
    if n < 0 {
        return 0o777;
    }
    match octal_of_decimal(n as u64) {
        Some(v) => if v <= 0xffff {
            v as u16
        } else {
            0o777
        },
        None => 0o777,
    }
}

} // verus!
