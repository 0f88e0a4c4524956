//! Configuration documents: a plain tree of values as a parser produces
//! it, and the verified validation that turns the `programs` section into
//! option records. Parsing the on-disk syntax is the work of an outside
//! parser behind one trusted boundary.

use vstd::prelude::*;

use crate::options::{
    env_map, spec_signal, spec_umask, unique_keys, AutoRestart, OptionsView, RestartPolicy,
    TaskOptions,
};
use crate::source::{cfg_view, unique_names};
use crate::text::{split_ws, str_eq, tokens};

verus! {

/// One node of a parsed configuration document.
pub enum ConfValue {
    /// A scalar string.
    Str(String),
    /// An integer.
    Int(i64),
    /// A boolean.
    Bool(bool),
    /// A sequence of nodes.
    List(Vec<ConfValue>),
    /// A mapping, in document order.
    Mapping(Vec<(ConfValue, ConfValue)>),
    /// Anything the configuration model has no reading for (floats,
    /// nulls, aliases, bad nodes).
    Other,
}

/// Why a configuration was rejected, with the exact message each case
/// carries to the client.
#[derive(Clone, Copy, PartialEq, Eq, Structural, Debug)]
pub enum ConfigError {
    /// The file could not be read.
    Unreadable,
    /// The document could not be parsed.
    Unparsable,
    /// A program key is not a string.
    ProgramName,
    /// The required `cmd` option is missing or not a string.
    MissingCmd,
    /// The `cmd` option holds no words.
    EmptyCmd,
    /// An unknown `autorestart` value.
    BadAutorestart,
    /// An unknown `stopsignal` name.
    BadStopSignal,
    /// More programs than the id counter can still number.
    TooManyPrograms,
}

/// The message text of a configuration error.
pub open spec fn spec_error_message(e: ConfigError) -> Seq<char> {
    match e {
        ConfigError::Unreadable => "Could not open file"@,
        ConfigError::Unparsable => "Could not parse config file"@,
        ConfigError::ProgramName => "Expect a program name"@,
        ConfigError::MissingCmd => "cmd is required and need to be as_str"@,
        ConfigError::EmptyCmd => "cmd must not be empty"@,
        ConfigError::BadAutorestart => "Invalid autorestart value"@,
        ConfigError::BadStopSignal => "Invalid stopsignal"@,
        ConfigError::TooManyPrograms => "too many programs"@,
    }
}

impl ConfigError {
    /// The message text of this error.
    pub fn message(&self) -> (r: &'static str)
        ensures
            r@ == spec_error_message(*self),
    {
        match self {
            ConfigError::Unreadable => "Could not open file",
            ConfigError::Unparsable => "Could not parse config file",
            ConfigError::ProgramName => "Expect a program name",
            ConfigError::MissingCmd => "cmd is required and need to be as_str",
            ConfigError::EmptyCmd => "cmd must not be empty",
            ConfigError::BadAutorestart => "Invalid autorestart value",
            ConfigError::BadStopSignal => "Invalid stopsignal",
            ConfigError::TooManyPrograms => "too many programs",
        }
    }
}

#[verifier::external_type_specification]
#[verifier::external_body]
pub struct ExYaml(yaml_rust::Yaml);

/// The documents a well-formed configuration text parses into; nothing
/// when the text is not well formed. The result is a function of the text
/// alone.
pub uninterp spec fn parsed_docs(text: Seq<char>) -> Option<Seq<ConfValue>>;

/// Relies on yaml_rust::Yaml: each variant of the parsed node is carried
/// over one to one; floats, nulls, aliases and bad nodes have no reading
/// in the configuration model.
#[verifier::external_body]
fn conv_yaml(y: &yaml_rust::Yaml) -> ConfValue {
    match y {
        yaml_rust::Yaml::String(s) => ConfValue::Str(s.clone()),
        yaml_rust::Yaml::Integer(i) => ConfValue::Int(*i),
        yaml_rust::Yaml::Boolean(b) => ConfValue::Bool(*b),
        yaml_rust::Yaml::Array(a) => ConfValue::List(a.iter().map(conv_yaml).collect()),
        yaml_rust::Yaml::Hash(h) => ConfValue::Mapping(
            h.iter().map(|(k, v)| (conv_yaml(k), conv_yaml(v))).collect(),
        ),
        _ => ConfValue::Other,
    }
}

/// Relies on yaml_rust::YamlLoader::load_from_str: parses the text into
/// its documents, deterministically in the text; a scan error gives
/// `None`. Note that the parser itself collapses duplicate keys within
/// one mapping (the last value wins) before the library sees them; the
/// library's own first-wins rule applies across entries and documents.
#[verifier::external_body]
pub fn parse_config(text: &str) -> (r: Option<Vec<ConfValue>>)
    ensures
        r matches Some(docs) ==> parsed_docs(text@) == Some(docs@),
        r is None ==> parsed_docs(text@) is None,
{
    match yaml_rust::YamlLoader::load_from_str(text) {
        Ok(docs) => Some(docs.iter().map(conv_yaml).collect()),
        Err(_) => None,
    }
}

/// The value under a string key; mappings bind the first occurrence.
pub open spec fn map_get(m: Seq<(ConfValue, ConfValue)>, key: Seq<char>) -> Option<ConfValue>
    decreases m.len(),
{
    if m.len() == 0 {
        None
    } else if m[0].0 is Str && m[0].0->Str_0@ == key {
        Some(m[0].1)
    } else {
        map_get(m.drop_first(), key)
    }
}

/// Looks a string key up in a mapping; see [`map_get`].
fn conf_get<'a>(m: &'a Vec<(ConfValue, ConfValue)>, key: &str) -> (r: Option<&'a ConfValue>)
    ensures
        match r {
            Some(v) => map_get(m@, key@) == Some(*v),
            None => map_get(m@, key@) is None,
        },
{
    let n = m.len();
    proof {
        assert(m@.skip(0) =~= m@);
    }
    for i in 0..n
        invariant
            n == m@.len(),
            map_get(m@, key@) == map_get(m@.skip(i as int), key@),
    {
        proof {
            assert(m@.skip(i as int)[0] == m@[i as int]);
            assert(m@.skip(i as int).drop_first() =~= m@.skip(i + 1));
        }
        match &m[i].0 {
            ConfValue::Str(k) => {
                if str_eq(k.as_str(), key) {
                    return Some(&m[i].1);
                }
            },
            _ => {},
        }
    }
    proof {
        assert(m@.skip(n as int).len() == 0);
    }
    None
}

/// An optional integer option, with its default.
pub open spec fn opt_int(m: Seq<(ConfValue, ConfValue)>, key: Seq<char>, default: i64) -> i64 {
    match map_get(m, key) {
        Some(ConfValue::Int(i)) => i,
        _ => default,
    }
}

fn get_int(m: &Vec<(ConfValue, ConfValue)>, key: &str, default: i64) -> (r: i64)
    ensures
        r == opt_int(m@, key@, default),
{
    match conf_get(m, key) {
        Some(ConfValue::Int(i)) => *i,
        _ => default,
    }
}

/// An optional boolean option, with its default.
pub open spec fn opt_bool(m: Seq<(ConfValue, ConfValue)>, key: Seq<char>, default: bool) -> bool {
    match map_get(m, key) {
        Some(ConfValue::Bool(b)) => b,
        _ => default,
    }
}

fn get_bool(m: &Vec<(ConfValue, ConfValue)>, key: &str, default: bool) -> (r: bool)
    ensures
        r == opt_bool(m@, key@, default),
{
    match conf_get(m, key) {
        Some(ConfValue::Bool(b)) => *b,
        _ => default,
    }
}

/// An optional string option, with its default.
pub open spec fn opt_str_or(
    m: Seq<(ConfValue, ConfValue)>,
    key: Seq<char>,
    default: Seq<char>,
) -> Seq<char> {
    match map_get(m, key) {
        Some(ConfValue::Str(s)) => s@,
        _ => default,
    }
}

/// An optional path option; absent when missing or not a string.
pub open spec fn opt_path(m: Seq<(ConfValue, ConfValue)>, key: Seq<char>) -> Option<Seq<char>> {
    match map_get(m, key) {
        Some(ConfValue::Str(s)) => Some(s@),
        _ => None,
    }
}

fn get_path(m: &Vec<(ConfValue, ConfValue)>, key: &str) -> (r: Option<String>)
    ensures
        r.deep_view() == opt_path(m@, key@),
{
    match conf_get(m, key) {
        Some(ConfValue::Str(s)) => Some(s.clone()),
        _ => None,
    }
}

/// The integer exit codes of an `exitcodes` list, in order.
pub open spec fn codes_upto(l: Seq<ConfValue>, n: int) -> Seq<i32>
    decreases n,
{
    if n <= 0 {
        Seq::empty()
    } else {
        codes_upto(l, n - 1) + (match l[n - 1] {
            ConfValue::Int(i) => seq![i as i32],
            _ => Seq::empty(),
        })
    }
}

/// All integer exit codes of an `exitcodes` list.
pub open spec fn codes_of(l: Seq<ConfValue>) -> Seq<i32> {
    codes_upto(l, l.len() as int)
}

fn build_codes(l: &Vec<ConfValue>) -> (r: Vec<i32>)
    ensures
        r@ == codes_of(l@),
{
    let n = l.len();
    let mut r: Vec<i32> = Vec::new();
    for i in 0..n
        invariant
            n == l@.len(),
            r@ == codes_upto(l@, i as int),
    {
        match &l[i] {
            ConfValue::Int(v) => {
                r.push(*v as i32);
            },
            _ => {},
        }
        proof {
            assert(r@ =~= codes_upto(l@, i + 1));
        }
    }
    r
}

/// The environment of an `env` mapping: pairs whose key and value are
/// both strings; the first occurrence of a key wins.
pub open spec fn env_of_upto(e: Seq<(ConfValue, ConfValue)>, n: int) -> Map<Seq<char>, Seq<char>>
    decreases n,
{
    if n <= 0 {
        Map::empty()
    } else {
        let m = env_of_upto(e, n - 1);
        if e[n - 1].0 is Str && e[n - 1].1 is Str && !m.contains_key(e[n - 1].0->Str_0@) {
            m.insert(e[n - 1].0->Str_0@, e[n - 1].1->Str_0@)
        } else {
            m
        }
    }
}

/// The whole environment of an `env` mapping.
pub open spec fn env_of(e: Seq<(ConfValue, ConfValue)>) -> Map<Seq<char>, Seq<char>> {
    env_of_upto(e, e.len() as int)
}

#[verifier::loop_isolation(false)]
fn build_env(e: &Vec<(ConfValue, ConfValue)>) -> (r: Vec<(String, String)>)
    ensures
        unique_keys(r@),
        env_map(r@) == env_of(e@),
{
    let n = e.len();
    let mut r: Vec<(String, String)> = Vec::new();
    for i in 0..n
        invariant
            n == e@.len(),
            unique_keys(r@),
            env_map(r@) == env_of_upto(e@, i as int),
    {
        match (&e[i].0, &e[i].1) {
            (ConfValue::Str(k), ConfValue::Str(v)) => {
                proof {
                    crate::options::lemma_env_map(r@);
                }
                let mut present = false;
                let nr = r.len();
                for j in 0..nr
                    invariant
                        nr == r@.len(),
                        present == exists|b: int| 0 <= b < j && (#[trigger] r@[b].0@) == k@,
                {
                    if str_eq(r[j].0.as_str(), k.as_str()) {
                        present = true;
                    }
                }
                if !present {
                    let ghost r0 = r@;
                    r.push((k.clone(), v.clone()));
                    proof {
                        assert(r@.drop_last() =~= r0);
                        assert(env_map(r@) == env_map(r0).insert(k@, v@));
                        assert(!env_map(r0).contains_key(k@));
                    }
                } else {
                    proof {
                        assert(env_map(r@).contains_key(k@));
                    }
                }
            },
            _ => {},
        }
        proof {
            assert(env_map(r@) =~= env_of_upto(e@, i + 1));
        }
    }
    r
}

/// The entries of a mapping node; an empty mapping for any other node.
pub open spec fn conf_entries(v: ConfValue) -> Seq<(ConfValue, ConfValue)> {
    match v {
        ConfValue::Mapping(e) => e@,
        _ => Seq::empty(),
    }
}

/// The validated option record of one program node, or why it is
/// rejected: `cmd` must be a string of at least one word, `autorestart`
/// one of its three names, `stopsignal` a known signal name. Everything
/// else falls back to its default.
pub open spec fn spec_options_of(v: ConfValue) -> Result<OptionsView, ConfigError> {
    let m = conf_entries(v);
    match map_get(m, "cmd"@) {
        Some(ConfValue::Str(cmd)) => {
            if tokens(cmd@).len() == 0 {
                Err(ConfigError::EmptyCmd)
            } else {
                let codes = codes_of(
                    match map_get(m, "exitcodes"@) {
                        Some(ConfValue::List(l)) => l@,
                        _ => Seq::empty(),
                    },
                ).to_set();
                let ar = opt_str_or(m, "autorestart"@, "always"@);
                if ar != "always"@ && ar != "never"@ && ar != "unexpected"@ {
                    Err(ConfigError::BadAutorestart)
                } else {
                    match spec_signal(opt_str_or(m, "stopsignal"@, "TERM"@)) {
                        None => Err(ConfigError::BadStopSignal),
                        Some(sig) => Ok(
                            OptionsView {
                                argv: tokens(cmd@),
                                numprocs: opt_int(m, "numprocs"@, 1) as u64,
                                autostart: opt_bool(m, "autostart"@, true),
                                autorestart: if ar == "never"@ {
                                    RestartPolicy::Never
                                } else if ar == "unexpected"@ {
                                    RestartPolicy::Unexpected(codes)
                                } else {
                                    RestartPolicy::Always
                                },
                                starttime_sec: opt_int(m, "starttime"@, 0) as u64,
                                retries: opt_int(m, "retries"@, 8) as u64,
                                stopsignal: sig,
                                stoptime_sec: opt_int(m, "stoptime"@, 0) as u64,
                                stdout: opt_path(m, "stdout"@),
                                stderr: opt_path(m, "stderr"@),
                                env: env_of(
                                    match map_get(m, "env"@) {
                                        Some(ConfValue::Mapping(e)) => e@,
                                        _ => Seq::empty(),
                                    },
                                ),
                                workingdir: opt_path(m, "workingdir"@),
                                umask: spec_umask(opt_int(m, "umask"@, 777) as int),
                            },
                        ),
                    }
                }
            }
        },
        _ => Err(ConfigError::MissingCmd),
    }
}

/// Validates one program node; see [`spec_options_of`].
pub fn options_of(v: &ConfValue) -> (r: Result<TaskOptions, ConfigError>)
    ensures
        match r {
            Ok(o) => spec_options_of(*v) == Ok::<OptionsView, ConfigError>(o@) && o.wf(),
            Err(e) => spec_options_of(*v) == Err::<OptionsView, ConfigError>(e),
        },
{
    proof {
        reveal_strlit("always");
        reveal_strlit("never");
        reveal_strlit("unexpected");
    }
    let empty_map: Vec<(ConfValue, ConfValue)> = Vec::new();
    let m: &Vec<(ConfValue, ConfValue)> = match v {
        ConfValue::Mapping(e) => e,
        _ => &empty_map,
    };
    proof {
        assert(m@ =~= conf_entries(*v));
    }
    let cmd = match conf_get(m, "cmd") {
        Some(ConfValue::Str(cmd)) => cmd,
        _ => {
            return Err(ConfigError::MissingCmd);
        },
    };
    let argv = split_ws(cmd.as_str());
    if argv.len() == 0 {
        return Err(ConfigError::EmptyCmd);
    }
    let empty_list: Vec<ConfValue> = Vec::new();
    let codes = build_codes(
        match conf_get(m, "exitcodes") {
            Some(ConfValue::List(l)) => l,
            _ => &empty_list,
        },
    );
    let autorestart = match conf_get(m, "autorestart") {
        Some(ConfValue::Str(s)) => {
            if str_eq(s.as_str(), "always") {
                AutoRestart::Always
            } else if str_eq(s.as_str(), "never") {
                AutoRestart::Never
            } else if str_eq(s.as_str(), "unexpected") {
                AutoRestart::Unexpected(codes)
            } else {
                return Err(ConfigError::BadAutorestart);
            }
        },
        _ => AutoRestart::Always,
    };
    let signame: &str = match conf_get(m, "stopsignal") {
        Some(ConfValue::Str(s)) => s.as_str(),
        _ => "TERM",
    };
    let stopsignal = match crate::options::parse_signal(signame) {
        Some(sig) => sig,
        None => {
            return Err(ConfigError::BadStopSignal);
        },
    };
    let env = match conf_get(m, "env") {
        Some(ConfValue::Mapping(e)) => build_env(e),
        _ => {
            let r: Vec<(String, String)> = Vec::new();
            proof {
                assert(env_map(r@) =~= env_of(Seq::empty()));
            }
            r
        },
    };
    let o = TaskOptions {
        argv,
        numprocs: get_int(m, "numprocs", 1) as u64,
        autostart: get_bool(m, "autostart", true),
        autorestart,
        starttime_sec: get_int(m, "starttime", 0) as u64,
        retries: get_int(m, "retries", 8) as u64,
        stopsignal,
        stoptime_sec: get_int(m, "stoptime", 0) as u64,
        stdout: get_path(m, "stdout"),
        stderr: get_path(m, "stderr"),
        env,
        workingdir: get_path(m, "workingdir"),
        umask: crate::options::umask_of(get_int(m, "umask", 777)),
    };
    proof {
        let so = spec_options_of(*v)->Ok_0;
        assert(spec_options_of(*v) is Ok);
        reveal_strlit("always");
        reveal_strlit("never");
        reveal_strlit("unexpected");
        assert("always"@.len() == 6);
        assert("never"@.len() == 5);
        assert("unexpected"@.len() == 10);
        assert(o@.argv == so.argv);
        assert(o@.numprocs == so.numprocs);
        assert(o@.autostart == so.autostart);
        assert(o@.autorestart == so.autorestart);
        assert(o@.starttime_sec == so.starttime_sec);
        assert(o@.retries == so.retries);
        assert(o@.stopsignal == so.stopsignal);
        assert(o@.stoptime_sec == so.stoptime_sec);
        assert(o@.stdout == so.stdout);
        assert(o@.stderr == so.stderr);
        assert(o@.env == so.env);
        assert(o@.workingdir == so.workingdir);
        assert(o@.umask == so.umask);
        assert(o@ =~= so);
    }
    Ok(o)
}

/// The program entries a document contributes: the entries of its
/// `programs` mapping.
pub open spec fn doc_entries(d: ConfValue) -> Seq<(ConfValue, ConfValue)> {
    match map_get(conf_entries(d), "programs"@) {
        Some(ConfValue::Mapping(p)) => p@,
        _ => Seq::empty(),
    }
}

/// Whether a program of this name was already collected.
pub open spec fn has_name(done: Seq<(Seq<char>, OptionsView)>, name: Seq<char>) -> bool {
    exists|k: int| 0 <= k < done.len() && (#[trigger] done[k]).0 == name
}

/// Folds the program entries of one document over what earlier documents
/// collected: a string key is required, a duplicate name is discarded
/// (the first occurrence wins), anything else is validated and appended.
pub open spec fn build_entries(
    done: Seq<(Seq<char>, OptionsView)>,
    entries: Seq<(ConfValue, ConfValue)>,
) -> Result<Seq<(Seq<char>, OptionsView)>, ConfigError>
    decreases entries.len(),
{
    if entries.len() == 0 {
        Ok(done)
    } else {
        match entries[0].0 {
            ConfValue::Str(name) => {
                if has_name(done, name@) {
                    build_entries(done, entries.drop_first())
                } else {
                    match spec_options_of(entries[0].1) {
                        Ok(o) => build_entries(done.push((name@, o)), entries.drop_first()),
                        Err(e) => Err(e),
                    }
                }
            },
            _ => Err(ConfigError::ProgramName),
        }
    }
}

/// Folds every document of a configuration.
pub open spec fn build_docs(
    done: Seq<(Seq<char>, OptionsView)>,
    docs: Seq<ConfValue>,
) -> Result<Seq<(Seq<char>, OptionsView)>, ConfigError>
    decreases docs.len(),
{
    if docs.len() == 0 {
        Ok(done)
    } else {
        match build_entries(done, doc_entries(docs[0])) {
            Ok(d) => build_docs(d, docs.drop_first()),
            Err(e) => Err(e),
        }
    }
}

/// The validated configuration of a whole parse: every program of every
/// document, names unique, first occurrence first.
pub open spec fn spec_from_conf(docs: Seq<ConfValue>) -> Result<
    Seq<(Seq<char>, OptionsView)>,
    ConfigError,
> {
    build_docs(Seq::empty(), docs)
}

/// Whether a program of this name was already collected; see
/// [`has_name`].
fn cfg_has_name(done: &Vec<(String, TaskOptions)>, name: &str) -> (r: bool)
    ensures
        r == has_name(cfg_view(done@), name@),
{
    let n = done.len();
    let mut found = false;
    for k in 0..n
        invariant
            n == done@.len(),
            found == exists|b: int| 0 <= b < k && (#[trigger] cfg_view(done@)[b]).0 == name@,
    {
        proof {
            assert(cfg_view(done@)[k as int].0 == done@[k as int].0@);
        }
        if str_eq(done[k].0.as_str(), name) {
            found = true;
        }
    }
    found
}

/// Validates parsed documents into the configuration of a source; see
/// [`spec_from_conf`].
#[verifier::loop_isolation(false)]
pub fn from_conf(docs: &Vec<ConfValue>) -> (r: Result<Vec<(String, TaskOptions)>, ConfigError>)
    ensures
        match r {
            Ok(v) => spec_from_conf(docs@) == Ok::<_, ConfigError>(cfg_view(v@)) && unique_names(
                cfg_view(v@),
            ) && forall|i: int| 0 <= i < v@.len() ==> (#[trigger] v@[i]).1.wf(),
            Err(e) => spec_from_conf(docs@) == Err::<Seq<(Seq<char>, OptionsView)>, _>(e),
        },
{
    let mut done: Vec<(String, TaskOptions)> = Vec::new();
    let nd = docs.len();
    proof {
        assert(cfg_view(done@) =~= Seq::<(Seq<char>, OptionsView)>::empty());
        assert(docs@.skip(0) =~= docs@);
    }
    for i in 0..nd
        invariant
            nd == docs@.len(),
            spec_from_conf(docs@) == build_docs(cfg_view(done@), docs@.skip(i as int)),
            unique_names(cfg_view(done@)),
            forall|k: int| 0 <= k < done@.len() ==> (#[trigger] done@[k]).1.wf(),
    {
        proof {
            assert(docs@.skip(i as int)[0] == docs@[i as int]);
            assert(docs@.skip(i as int).drop_first() =~= docs@.skip(i + 1));
        }
        let empty_map: Vec<(ConfValue, ConfValue)> = Vec::new();
        let entries: &Vec<(ConfValue, ConfValue)> = match &docs[i] {
            ConfValue::Mapping(e) => match conf_get(e, "programs") {
                Some(ConfValue::Mapping(p)) => p,
                _ => &empty_map,
            },
            _ => &empty_map,
        };
        proof {
            assert(entries@ =~= doc_entries(docs@[i as int]));
        }
        let ghost done_doc = cfg_view(done@);
        let ne = entries.len();
        proof {
            assert(entries@.skip(0) =~= entries@);
        }
        for j in 0..ne
            invariant
                ne == entries@.len(),
                entries@ == doc_entries(docs@[i as int]),
                build_entries(done_doc, entries@) == build_entries(
                    cfg_view(done@),
                    entries@.skip(j as int),
                ),
                unique_names(cfg_view(done@)),
                forall|k: int| 0 <= k < done@.len() ==> (#[trigger] done@[k]).1.wf(),
        {
            proof {
                assert(entries@.skip(j as int)[0] == entries@[j as int]);
                assert(entries@.skip(j as int).drop_first() =~= entries@.skip(j + 1));
            }
            let name = match &entries[j].0 {
                ConfValue::Str(name) => name,
                _ => {
                    return Err(ConfigError::ProgramName);
                },
            };
            if !cfg_has_name(&done, name.as_str()) {
                match options_of(&entries[j].1) {
                    Ok(o) => {
                        let ghost d0 = cfg_view(done@);
                        done.push((name.clone(), o));
                        proof {
                            assert(cfg_view(done@) =~= d0.push((name@, o@)));
                        }
                    },
                    Err(e) => {
                        return Err(e);
                    },
                }
            }
        }
        proof {
            assert(entries@.skip(ne as int).len() == 0);
        }
    }
    proof {
        assert(docs@.skip(nd as int).len() == 0);
    }
    Ok(done)
}

} // verus!
