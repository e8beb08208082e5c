//! The orchestration core: fetch planning, secret construction from
//! backend outcomes, and the broker state machine around the stores.
//!
//! The binary performs the outside work — reading files and environment
//! variables, running subprocesses, talking to the secret service — and
//! hands the outcomes back as plain values; every decision is made here.

use vstd::prelude::*;

use crate::assoc::{assoc_get, assoc_set, lemma_assoc_set_entries};
use crate::backend::Backend;
use crate::checksum::Checksums;
use crate::client::{Auth, Auths, AuthV};
use crate::conf::{gen_msgs, TemplateConf, TemplateConfs};
use crate::error::Error;
use crate::json::{json_of, parse_json};
use crate::message::{msg_views, Message, MsgV};
use crate::parser::matches_fail;
use crate::secret::{parses, spec_parse, spec_repr, two_thirds, Secret, SecretPath, SecretPathV,
    SecretV};
use crate::secrets::{any_leased_in, Secrets};
use crate::text::{ascii_upper, first_is, spec_split_ws, spec_trim, spec_upper, split_ws, str_eq,
    trim};
use crate::user::User;
use crate::value::{Json, JsonV};

verus! {

/// How a backend's raw result is interpreted.
#[derive(Debug, PartialEq, Eq, Structural, Copy, Clone)]
pub enum Fmt {
    /// The raw text becomes a string value.
    Str,
    /// The raw text is parsed as JSON.
    Js,
}

/// Everything the binary needs to perform one fetch.
#[derive(Debug, PartialEq, Eq)]
pub enum FetchPlan {
    /// Ask the authenticated service, with a cached login for `role`.
    Vault { role: String, method: String, path: String, kwargs: Option<Vec<(String, String)>> },
    /// Read the named environment variable.
    Env { fmt: Fmt, name: String },
    /// Read the named file.
    File { fmt: Fmt, path: String },
    /// Run the command line; `dynamic` marks a zero-second lease.
    Exe { fmt: Fmt, dynamic: bool, argv: Vec<String> },
}

/// Model of a fetch plan.
pub enum PlanV {
    Vault {
        role: Seq<char>,
        method: Seq<char>,
        path: Seq<char>,
        kwargs: Option<Seq<(Seq<char>, Seq<char>)>>,
    },
    Env { fmt: Fmt, name: Seq<char> },
    File { fmt: Fmt, path: Seq<char> },
    Exe { fmt: Fmt, dynamic: bool, argv: Seq<Seq<char>> },
}

impl View for FetchPlan {
    type V = PlanV;

    open spec fn view(&self) -> PlanV {
        match self {
            FetchPlan::Vault { role, method, path, kwargs } => PlanV::Vault {
                role: role@,
                method: method@,
                path: path@,
                kwargs: match kwargs {
                    Option::None => Option::None,
                    Option::Some(kw) => Option::Some(
                        kw@.map_values(|p: (String, String)| (p.0@, p.1@)),
                    ),
                },
            },
            FetchPlan::Env { fmt, name } => PlanV::Env { fmt: *fmt, name: name@ },
            FetchPlan::File { fmt, path } => PlanV::File { fmt: *fmt, path: path@ },
            FetchPlan::Exe { fmt, dynamic, argv } => PlanV::Exe {
                fmt: *fmt,
                dynamic: *dynamic,
                argv: argv@.map_values(|s: String| s@),
            },
        }
    }
}

/// Why a parsed reference still yields no plan.
pub enum PlanErr {
    /// No positional argument names the role (or the format).
    NoRole,
    /// The first positional argument is neither `str` nor `js`.
    BadFmt,
    /// The second positional argument is neither `static` nor `dynamic`.
    BadMode,
    /// The command line of an `exe` reference is blank.
    EmptyCmd,
    /// The program of an `exe` reference, which is not absolute.
    Relative(Seq<char>),
}

/// Which format a token selects.
pub open spec fn spec_fmt(tok: Seq<char>) -> Option<Fmt> {
    if tok == "str"@ {
        Option::Some(Fmt::Str)
    } else if tok == "js"@ {
        Option::Some(Fmt::Js)
    } else {
        Option::None
    }
}

/// The request method: the second positional argument uppercased, `GET` by
/// default.
pub open spec fn spec_method(args: Seq<Seq<char>>) -> Seq<char> {
    if args.len() >= 2 {
        args[1].map_values(|c: char| spec_upper(c))
    } else {
        "GET"@
    }
}

/// Whether the `exe` reference is dynamic: `static` by default.
pub open spec fn spec_exe_mode(args: Seq<Seq<char>>) -> Option<bool> {
    if args.len() < 2 {
        Option::Some(false)
    } else if args[1] == "static"@ {
        Option::Some(false)
    } else if args[1] == "dynamic"@ {
        Option::Some(true)
    } else {
        Option::None
    }
}

/// The privilege drop: prepend `sudo -u nobody` when running as root.
pub open spec fn sudo_wrap(argv: Seq<Seq<char>>, root: bool) -> Seq<Seq<char>> {
    if root {
        seq!["/usr/bin/sudo"@, "-u"@, "nobody"@] + argv
    } else {
        argv
    }
}

/// The plan a parsed reference yields, or why it yields none.
pub open spec fn spec_plan(m: SecretPathV, root: bool) -> Result<PlanV, PlanErr> {
    if m.args.len() == 0 {
        Result::Err(PlanErr::NoRole)
    } else {
        match m.backend {
            Backend::Vault => Result::Ok(
                PlanV::Vault {
                    role: m.args[0],
                    method: spec_method(m.args),
                    path: m.path,
                    kwargs: m.kwargs,
                },
            ),
            Backend::Env => match spec_fmt(m.args[0]) {
                Option::None => Result::Err(PlanErr::BadFmt),
                Option::Some(f) => Result::Ok(PlanV::Env { fmt: f, name: m.path }),
            },
            Backend::File => match spec_fmt(m.args[0]) {
                Option::None => Result::Err(PlanErr::BadFmt),
                Option::Some(f) => Result::Ok(PlanV::File { fmt: f, path: m.path }),
            },
            Backend::Exe => match spec_fmt(m.args[0]) {
                Option::None => Result::Err(PlanErr::BadFmt),
                Option::Some(f) => match spec_exe_mode(m.args) {
                    Option::None => Result::Err(PlanErr::BadMode),
                    Option::Some(dynamic) => {
                        let words = spec_split_ws(m.path);
                        if words.len() == 0 {
                            Result::Err(PlanErr::EmptyCmd)
                        } else if !(words[0].len() > 0 && words[0][0] == '/') {
                            Result::Err(PlanErr::Relative(words[0]))
                        } else {
                            Result::Ok(
                                PlanV::Exe { fmt: f, dynamic, argv: sudo_wrap(words, root) },
                            )
                        }
                    },
                },
            },
        }
    }
}

/// Parse a secret reference and decide everything about its fetch: backend,
/// role and method, format, lease mode, the privilege-dropped command line,
/// and the exact error when any of it is malformed.
pub fn plan_fetch(path_text: &str, current_user: &User) -> (r: Result<FetchPlan, Error>)
    ensures
        match r {
            Ok(p) => parses(path_text@) && spec_plan(
                spec_parse(path_text@)->Ok_0,
                current_user.uid == 0,
            ) == Result::<PlanV, PlanErr>::Ok(p@),
            Err(e) => match spec_parse(path_text@) {
                Result::Err(f) => matches_fail(e, f),
                Result::Ok(m) => match spec_plan(m, current_user.uid == 0) {
                    Result::Ok(_p) => false,
                    Result::Err(pe) => match pe {
                        PlanErr::NoRole => (e matches Error::MissingRole(t) && t@
                            == path_text@),
                        PlanErr::BadFmt => (e matches Error::ExpectedArg(a, b) && a@
                            == "\"str\" or \"js\""@ && b@ == spec_repr(m)),
                        PlanErr::BadMode => (e matches Error::ExpectedArg(a, b) && a@
                            == "\"static\" or \"dynamic\""@ && b@ == spec_repr(m)),
                        PlanErr::EmptyCmd => (e matches Error::RelativePath(t, c) && t@
                            == path_text@ && c@ == Seq::<char>::empty()),
                        PlanErr::Relative(w) => (e matches Error::RelativePath(t, c) && t@
                            == path_text@ && c@ == w),
                    },
                },
            },
        },
{
    let sp = match SecretPath::parse(path_text) {
        Err(e) => {
            return Err(e);
        },
        Ok(sp) => sp,
    };
    if sp.args.len() == 0 {
        return Err(Error::MissingRole(path_text.to_owned()));
    }
    proof {
        assert(sp@.args[0] == sp.args@[0]@);
    }
    match sp.backend {
        Backend::Vault => {
            let method = if sp.args.len() >= 2 {
                proof {
                    assert(sp@.args[1] == sp.args@[1]@);
                }
                ascii_upper(sp.args[1].as_str())
            } else {
                "GET".to_owned()
            };
            Ok(
                FetchPlan::Vault {
                    role: sp.args[0].clone(),
                    method,
                    path: sp.path,
                    kwargs: sp.kwargs,
                },
            )
        },
        Backend::Env => {
            if str_eq(sp.args[0].as_str(), "str") {
                Ok(FetchPlan::Env { fmt: Fmt::Str, name: sp.path })
            } else if str_eq(sp.args[0].as_str(), "js") {
                Ok(FetchPlan::Env { fmt: Fmt::Js, name: sp.path })
            } else {
                Err(Error::ExpectedArg("\"str\" or \"js\"".to_owned(), sp.to_string()))
            }
        },
        Backend::File => {
            if str_eq(sp.args[0].as_str(), "str") {
                Ok(FetchPlan::File { fmt: Fmt::Str, path: sp.path })
            } else if str_eq(sp.args[0].as_str(), "js") {
                Ok(FetchPlan::File { fmt: Fmt::Js, path: sp.path })
            } else {
                Err(Error::ExpectedArg("\"str\" or \"js\"".to_owned(), sp.to_string()))
            }
        },
        Backend::Exe => {
            let fmt = if str_eq(sp.args[0].as_str(), "str") {
                Fmt::Str
            } else if str_eq(sp.args[0].as_str(), "js") {
                Fmt::Js
            } else {
                return Err(Error::ExpectedArg("\"str\" or \"js\"".to_owned(), sp.to_string()));
            };
            let dynamic = if sp.args.len() < 2 {
                false
            } else {
                proof {
                    assert(sp@.args[1] == sp.args@[1]@);
                }
                if str_eq(sp.args[1].as_str(), "static") {
                    false
                } else if str_eq(sp.args[1].as_str(), "dynamic") {
                    true
                } else {
                    return Err(
                        Error::ExpectedArg("\"static\" or \"dynamic\"".to_owned(), sp.to_string()),
                    );
                }
            };
            let words = split_ws(sp.path.as_str());
            if words.len() == 0 {
                return Err(Error::RelativePath(path_text.to_owned(), String::new()));
            }
            proof {
                assert(words@.map_values(|s: String| s@)[0] == spec_split_ws(sp@.path)[0]);
            }
            if !first_is(words[0].as_str(), '/') {
                return Err(Error::RelativePath(path_text.to_owned(), words[0].clone()));
            }
            if current_user.is_root() {
                let mut argv: Vec<String> = Vec::new();
                argv.push("/usr/bin/sudo".to_owned());
                argv.push("-u".to_owned());
                argv.push("nobody".to_owned());
                let mut i: usize = 0;
                proof {
                    assert(argv@.map_values(|s: String| s@) =~= seq![
                        "/usr/bin/sudo"@,
                        "-u"@,
                        "nobody"@,
                    ]);
                }
                while i < words.len()
                    invariant
                        i <= words@.len(),
                        argv@.map_values(|s: String| s@) =~= seq![
                            "/usr/bin/sudo"@,
                            "-u"@,
                            "nobody"@,
                        ] + words@.map_values(|s: String| s@).take(i as int),
                    decreases words@.len() - i,
                {
                    let w = words[i].clone();
                    proof {
                        assert(argv@.push(w).map_values(|s: String| s@) =~= argv@.map_values(
                            |s: String| s@,
                        ).push(words@.map_values(|s: String| s@)[i as int]));
                        assert((seq!["/usr/bin/sudo"@, "-u"@, "nobody"@] + words@.map_values(
                            |s: String| s@,
                        ).take(i as int)).push(words@.map_values(|s: String| s@)[i as int])
                            =~= seq!["/usr/bin/sudo"@, "-u"@, "nobody"@] + words@.map_values(
                            |s: String| s@,
                        ).take(i + 1));
                    }
                    argv.push(w);
                    i += 1;
                }
                proof {
                    assert(words@.map_values(|s: String| s@).take(words@.len() as int)
                        =~= words@.map_values(|s: String| s@));
                }
                Ok(FetchPlan::Exe { fmt, dynamic, argv })
            } else {
                Ok(FetchPlan::Exe { fmt, dynamic, argv: words })
            }
        },
    }
}

/// A secret from the process environment: the variable's value, or its
/// parse; a missing variable reads as empty.
pub fn env_secret(fmt: Fmt, name: &str, var: Option<String>, now: u64) -> (r: Result<
    Secret,
    Error,
>)
    ensures
        match fmt {
            Fmt::Str => (r matches Ok(s) && s@ == SecretV {
                value: JsonV::Str(
                    match var {
                        Option::Some(v) => v@,
                        Option::None => ""@,
                    },
                ),
                lease_duration: Option::None,
                renewable: false,
                fetched_at: now,
            }),
            Fmt::Js => ({
                let text = match var {
                    Option::Some(v) => v@,
                    Option::None => "\"\""@,
                };
                match json_of(text) {
                    Option::Some(v) => (r matches Ok(s) && s@ == SecretV {
                        value: v,
                        lease_duration: Option::None,
                        renewable: false,
                        fetched_at: now,
                    }),
                    Option::None => (r matches Err(e) && e matches Error::ParseError(t) && t@
                        == name@),
                }
            }),
        },
{
    proof {
        reveal_strlit("");
        assert((""@) =~= Seq::<char>::empty());
    }
    match fmt {
        Fmt::Str => {
            let text = match var {
                Option::Some(v) => v,
                Option::None => String::new(),
            };
            Ok(Secret::new(Json::Str(text), Option::None, now))
        },
        Fmt::Js => {
            let text = match var {
                Option::Some(v) => v,
                Option::None => "\"\"".to_owned(),
            };
            match parse_json(text.as_str()) {
                Option::Some(v) => Ok(Secret::new(v, Option::None, now)),
                Option::None => Err(Error::ParseError(name.to_owned())),
            }
        },
    }
}

/// A secret from a file's contents.  Opening and reading are the binary's
/// work; what arrives here is the text.
pub fn file_secret(fmt: Fmt, path: &str, contents: String, now: u64) -> (r: Result<
    Secret,
    Error,
>)
    ensures
        match fmt {
            Fmt::Str => (r matches Ok(s) && s@ == SecretV {
                value: JsonV::Str(contents@),
                lease_duration: Option::None,
                renewable: false,
                fetched_at: now,
            }),
            Fmt::Js => match json_of(contents@) {
                Option::Some(v) => (r matches Ok(s) && s@ == SecretV {
                    value: v,
                    lease_duration: Option::None,
                    renewable: false,
                    fetched_at: now,
                }),
                Option::None => (r matches Err(e) && e matches Error::ParseError(t) && t@
                    == path@),
            },
        },
{
    match fmt {
        Fmt::Str => Ok(Secret::new(Json::Str(contents), Option::None, now)),
        Fmt::Js => {
            match parse_json(contents.as_str()) {
                Option::Some(v) => Ok(Secret::new(v, Option::None, now)),
                Option::None => Err(Error::ParseError(path.to_owned())),
            }
        },
    }
}

/// A secret from a subprocess outcome.  A failed exit is the command's
/// error; otherwise the trimmed standard output is the value, and a
/// dynamic reference carries a zero-second lease.
pub fn exe_secret(
    fmt: Fmt,
    dynamic: bool,
    cmd: &str,
    success: bool,
    code: Option<i32>,
    stdout: String,
    stderr: String,
    now: u64,
) -> (r: Result<Secret, Error>)
    ensures
        ({
            let lease = if dynamic {
                Option::Some(0u64)
            } else {
                Option::<u64>::None
            };
            if !success {
                r matches Err(e) && (e matches Error::CmdError(c, k, err) && c@ == cmd@ && k
                    == (match code {
                    Option::Some(x) => x,
                    Option::None => 1i32,
                }) && err@ == stderr@)
            } else {
                match fmt {
                    Fmt::Str => (r matches Ok(s) && s@ == SecretV {
                        value: JsonV::Str(spec_trim(stdout@)),
                        lease_duration: lease,
                        renewable: false,
                        fetched_at: now,
                    }),
                    Fmt::Js => match json_of(stdout@) {
                        Option::Some(v) => (r matches Ok(s) && s@ == SecretV {
                            value: v,
                            lease_duration: lease,
                            renewable: false,
                            fetched_at: now,
                        }),
                        Option::None => (r matches Err(e) && e matches Error::ParseError(t)
                            && t@ == cmd@),
                    },
                }
            }
        }),
{
    if !success {
        let k = match code {
            Option::Some(x) => x,
            Option::None => 1,
        };
        return Err(Error::CmdError(cmd.to_owned(), k, stderr));
    }
    let lease = if dynamic {
        Option::Some(0u64)
    } else {
        Option::None
    };
    match fmt {
        Fmt::Str => {
            let t = trim(stdout.as_str()).to_owned();
            Ok(Secret::new(Json::Str(t), lease, now))
        },
        Fmt::Js => {
            match parse_json(stdout.as_str()) {
                Option::Some(v) => Ok(Secret::new(v, lease, now)),
                Option::None => Err(Error::ParseError(cmd.to_owned())),
            }
        },
    }
}

} // verus!

verus! {

/// Every declared secret key of a job parses as a secret path.
pub open spec fn conf_keys_parse(cs: Seq<(Seq<char>, Seq<char>)>) -> bool {
    forall|j: int| 0 <= j < cs.len() ==> parses((#[trigger] cs[j]).0)
}

/// The first declared key that does not parse, if any.
pub open spec fn first_unparsed(cs: Seq<(Seq<char>, Seq<char>)>) -> Option<Seq<char>>
    decreases cs.len(),
{
    if cs.len() == 0 {
        Option::None
    } else if !parses(cs[0].0) {
        Option::Some(cs[0].0)
    } else {
        first_unparsed(cs.skip(1))
    }
}

/// The startup messages one job contributes: for each declared secret that
/// has no slot yet, a login first where the authenticated backend demands
/// one, then the initial fetch without re-triggering.
pub open spec fn load_msgs(
    cs: Seq<(Seq<char>, Seq<char>)>,
    store: Seq<(Seq<char>, Option<SecretV>)>,
) -> Seq<MsgV>
    decreases cs.len(),
{
    if cs.len() == 0 {
        Seq::empty()
    } else {
        let path = cs[0].0;
        if assoc_get(store, path) is Some {
            load_msgs(cs.skip(1), store)
        } else {
            let m = spec_parse(path)->Ok_0;
            (if m.backend == Backend::Vault && m.args.len() > 0 {
                seq![MsgV::Login(m.args[0])]
            } else {
                Seq::empty()
            }) + seq![MsgV::GetSecret(path, false)] + load_msgs(
                cs.skip(1),
                store.push((path, Option::None)),
            )
        }
    }
}

/// The slots one job's load adds to the store.
pub open spec fn load_store(
    cs: Seq<(Seq<char>, Seq<char>)>,
    store: Seq<(Seq<char>, Option<SecretV>)>,
) -> Seq<(Seq<char>, Option<SecretV>)>
    decreases cs.len(),
{
    if cs.len() == 0 {
        store
    } else {
        let path = cs[0].0;
        if assoc_get(store, path) is Some {
            load_store(cs.skip(1), store)
        } else {
            load_store(cs.skip(1), store.push((path, Option::None)))
        }
    }
}

/// The bindings handed to the evaluator for one job: binding name to stored
/// value, in declaration order, for every declared secret whose value is
/// filled.
pub open spec fn spec_bindings(
    cs: Seq<(Seq<char>, Seq<char>)>,
    store: Seq<(Seq<char>, Option<SecretV>)>,
) -> Seq<(Seq<char>, JsonV)>
    decreases cs.len(),
{
    if cs.len() == 0 {
        Seq::empty()
    } else {
        (match assoc_get(store, cs[0].0) {
            Option::Some(Option::Some(s)) => seq![(cs[0].1, s.value)],
            _ => Seq::empty(),
        }) + spec_bindings(cs.skip(1), store)
    }
}

/// Does a binding pair name a value that is present in the store under one
/// of the job's declared keys?
pub open spec fn binding_present(
    cs: Seq<(Seq<char>, Seq<char>)>,
    store: Seq<(Seq<char>, Option<SecretV>)>,
    b: (Seq<char>, JsonV),
) -> bool {
    exists|j: int|
        0 <= j < cs.len() && (#[trigger] cs[j]).1 == b.0 && (assoc_get(
            store,
            cs[j].0,
        ) matches Option::Some(slot) && slot matches Option::Some(s) && s.value == b.1)
}

/// Every binding handed to the evaluator corresponds to a present secret in
/// the store, keyed by the job's declared secrets.
pub proof fn lemma_bindings_present(
    cs: Seq<(Seq<char>, Seq<char>)>,
    store: Seq<(Seq<char>, Option<SecretV>)>,
)
    ensures
        forall|i: int| 0 <= i < spec_bindings(cs, store).len() ==> binding_present(
            cs,
            store,
            #[trigger] spec_bindings(cs, store)[i],
        ),
    decreases cs.len(),
{
    if cs.len() > 0 {
        lemma_bindings_present(cs.skip(1), store);
        let bs = spec_bindings(cs, store);
        let rest = spec_bindings(cs.skip(1), store);
        assert forall|i: int| 0 <= i < bs.len() implies binding_present(
            cs,
            store,
            #[trigger] bs[i],
        ) by {
            match assoc_get(store, cs[0].0) {
                Option::Some(Option::Some(s)) => {
                    if i == 0 {
                        assert(bs[0] == (cs[0].1, s.value));
                        assert(binding_present(cs, store, bs[0]));
                    } else {
                        assert(bs[i] == rest[i - 1]);
                        assert(binding_present(cs.skip(1), store, rest[i - 1]));
                        let j = choose|j: int|
                            0 <= j < cs.skip(1).len() && (#[trigger] cs.skip(1)[j]).1 == rest[i
                                - 1].0 && (assoc_get(store, cs.skip(1)[j].0) matches
                            Option::Some(slot) && slot matches Option::Some(s2) && s2.value
                                == rest[i - 1].1);
                        assert(cs[j + 1] == cs.skip(1)[j]);
                    }
                },
                _ => {
                    assert(bs[i] == rest[i]);
                    assert(binding_present(cs.skip(1), store, rest[i]));
                    let j = choose|j: int|
                        0 <= j < cs.skip(1).len() && (#[trigger] cs.skip(1)[j]).1 == rest[i].0 && (
                        assoc_get(store, cs.skip(1)[j].0) matches Option::Some(slot)
                            && slot matches Option::Some(s2) && s2.value == rest[i].1);
                    assert(cs[j + 1] == cs.skip(1)[j]);
                },
            }
        }
    }
}

/// For every job in the registry of a broker that satisfies its invariant,
/// every declared secret key parses as a valid secret path.  The invariant
/// is established empty and preserved by `load_conf`, the only way in.
pub proof fn lemma_registry_keys_parse(b: &Broker, i: int, j: int)
    requires
        b.inv(),
        0 <= i < b.confs@.len(),
        0 <= j < b.confs@[i].1.secrets.len(),
    ensures
        parses(b.confs@[i].1.secrets[j].0),
{
    assert(conf_keys_parse(b.confs@[i].1.secrets));
}

/// What ends one template's materialization: which hooks to fire and
/// whether the process is done.
#[derive(Debug, PartialEq, Eq, Structural)]
pub struct Finish {
    /// Fire the `modified` hook: content changed, and not on the first run.
    pub fire_modified: bool,
    /// Every registered job has now been generated once: reset the counter,
    /// signal readiness and fire the `ready` hook.
    pub pass_complete: bool,
    /// Stop the loop: the pass is complete and either daemon mode is off or
    /// no stored secret is leased.
    pub exit: bool,
}

/// The broker: single owner of all mutable state, driven by messages.
pub struct Broker {
    pub secrets: Secrets,
    pub confs: TemplateConfs,
    pub checksums: Checksums,
    pub auths: Auths,
    pub current_user: User,
    pub daemon: bool,
    pub first_run: bool,
    pub generated: usize,
}

impl Broker {
    /// The broker's invariant: the stores bind each key once, and every
    /// declared secret of every registered job parses as a secret path.
    pub open spec fn inv(&self) -> bool {
        &&& self.secrets.wf()
        &&& self.confs.wf()
        &&& self.checksums.wf()
        &&& self.auths.wf()
        &&& forall|i: int| 0 <= i < self.confs@.len() ==> conf_keys_parse(
            (#[trigger] self.confs@[i]).1.secrets,
        )
    }

    pub fn new(current_user: User, daemon: bool) -> (r: Broker)
        ensures
            r.inv(),
            r.secrets@.len() == 0,
            r.confs@.len() == 0,
            r.checksums@.len() == 0,
            r.auths@.len() == 0,
            r.current_user == current_user,
            r.daemon == daemon,
            r.first_run,
            r.generated == 0,
    {
        Broker {
            secrets: Secrets::new(),
            confs: TemplateConfs::new(),
            checksums: Checksums::new(),
            auths: Auths::new(),
            current_user,
            daemon,
            first_run: true,
            generated: 0,
        }
    }

    /// Register one job at startup.  Every declared secret key must parse;
    /// then, a job without secrets asks for its template at once, and each
    /// declared secret not yet slotted gets its placeholder, a login first
    /// where the authenticated backend demands one, and its initial fetch.
    pub fn load_conf(&mut self, tmpl: &str, conf: TemplateConf, queue: &mut Vec<Message>) -> (r:
        Result<(), Error>)
        requires
            old(self).inv(),
        ensures
            final(self).inv(),
            final(self).checksums@ == old(self).checksums@,
            final(self).auths@ == old(self).auths@,
            final(self).current_user == old(self).current_user,
            final(self).daemon == old(self).daemon,
            final(self).first_run == old(self).first_run,
            final(self).generated == old(self).generated,
            match r {
                Ok(u) => {
                    &&& conf_keys_parse(conf@.secrets)
                    &&& final(self).confs@ == assoc_set(
                        old(self).confs@,
                        tmpl@,
                        conf@,
                    )
                    &&& final(self).secrets@ == load_store(conf@.secrets, old(self).secrets@)
                    &&& msg_views(final(queue)@) == msg_views(old(queue)@) + load_msgs(
                        conf@.secrets,
                        old(self).secrets@,
                    ) + (if conf@.secrets.len() == 0 {
                        seq![MsgV::GenerateTemplate(tmpl@)]
                    } else {
                        Seq::<MsgV>::empty()
                    })
                },
                Err(e) => {
                    &&& first_unparsed(conf@.secrets) matches Option::Some(k) && (spec_parse(k)
                        matches Result::Err(f) && matches_fail(e, f))
                    &&& final(self).confs@ == old(self).confs@
                    &&& final(self).secrets@ == old(self).secrets@
                    &&& msg_views(final(queue)@) == msg_views(old(queue)@)
                },
            },
    {
        let ghost cs = conf@.secrets;
        proof {
            assert(forall|x: int| 0 <= x < cs.len() ==> #[trigger] cs[x] == (
            conf.secrets@[x].0@, conf.secrets@[x].1@));
            assert(cs.skip(0) =~= cs);
        }
        // validate every declared key first, so that a failure leaves
        // nothing half-registered
        let n = conf.secrets.len();
        let mut j: usize = 0;
        while j < n
            invariant
                n == cs.len(),
                j <= n,
                cs == conf@.secrets,
                conf@.secrets.len() == conf.secrets@.len(),
                forall|x: int| 0 <= x < cs.len() ==> #[trigger] cs[x] == (conf.secrets@[x].0@,
                conf.secrets@[x].1@),
                forall|x: int| 0 <= x < j ==> parses((#[trigger] cs[x]).0),
                first_unparsed(cs) == first_unparsed(cs.skip(j as int)),
                self.inv(),
                self.secrets@ == old(self).secrets@,
                self.confs@ == old(self).confs@,
                self.checksums@ == old(self).checksums@,
                self.auths@ == old(self).auths@,
                self.current_user == old(self).current_user,
                self.daemon == old(self).daemon,
                self.first_run == old(self).first_run,
                self.generated == old(self).generated,
                msg_views(queue@) == msg_views(old(queue)@),
            decreases n - j,
        {
            proof {
                assert(cs.skip(j as int)[0] == cs[j as int]);
                assert(cs.skip(j as int).skip(1) =~= cs.skip(j + 1));
            }
            match SecretPath::parse(conf.secrets[j].0.as_str()) {
                Ok(_sp) => {},
                Err(e) => {
                    proof {
                        assert(first_unparsed(cs.skip(j as int)) == Option::Some(cs[j as int].0));
                    }
                    return Err(e);
                },
            }
            j += 1;
        }
        proof {
            assert(cs.skip(n as int) =~= Seq::<(Seq<char>, Seq<char>)>::empty());
            assert(first_unparsed(cs) is None);
        }
        // slot and fetch each declared secret not yet known
        let ghost store0 = self.secrets@;
        let mut i: usize = 0;
        proof {
            assert(msg_views(queue@) + load_msgs(cs, store0) == msg_views(queue@) + load_msgs(
                cs.skip(0),
                self.secrets@,
            ));
        }
        while i < n
            invariant
                n == cs.len(),
                i <= n,
                cs == conf@.secrets,
                conf@.secrets.len() == conf.secrets@.len(),
                forall|x: int| 0 <= x < cs.len() ==> #[trigger] cs[x] == (conf.secrets@[x].0@,
                conf.secrets@[x].1@),
                forall|x: int| 0 <= x < cs.len() ==> parses((#[trigger] cs[x]).0),
                self.secrets.wf(),
                self.confs == old(self).confs,
                self.checksums == old(self).checksums,
                self.auths == old(self).auths,
                self.current_user == old(self).current_user,
                self.daemon == old(self).daemon,
                self.first_run == old(self).first_run,
                self.generated == old(self).generated,
                old(self).inv(),
                store0 == old(self).secrets@,
                msg_views(old(queue)@) + load_msgs(cs, store0) == msg_views(queue@) + load_msgs(
                    cs.skip(i as int),
                    self.secrets@,
                ),
                load_store(cs, store0) == load_store(cs.skip(i as int), self.secrets@),
            decreases n - i,
        {
            proof {
                assert(cs.skip(i as int)[0] == cs[i as int]);
                assert(cs.skip(i as int).skip(1) =~= cs.skip(i + 1));
            }
            let path = &conf.secrets[i].0;
            match self.secrets.get(path.as_str()) {
                Option::Some(_slot) => {},
                Option::None => {
                    let ghost smid = self.secrets@;
                    let ghost qmid = msg_views(queue@);
                    let ghost m = spec_parse(path@)->Ok_0;
                    match SecretPath::parse(path.as_str()) {
                        Err(_e) => {
                            // cannot happen: every key was validated above
                            proof {
                                assert(false);
                            }
                        },
                        Ok(sp) => {
                            if sp.backend == Backend::Vault && sp.args.len() > 0 {
                                let lm = Message::Login(sp.args[0].clone());
                                proof {
                                    assert(sp@.args[0] == sp.args@[0]@);
                                    assert(msg_views(queue@.push(lm)) =~= msg_views(queue@)
                                        + seq![lm@]);
                                }
                                queue.push(lm);
                            } else {
                                proof {
                                    assert(msg_views(queue@) =~= qmid + Seq::<MsgV>::empty());
                                }
                            }
                        },
                    }
                    self.secrets.insert_none(path.clone());
                    let gm = Message::GetSecret(path.clone(), false);
                    proof {
                        assert(msg_views(queue@.push(gm)) =~= msg_views(queue@) + seq![gm@]);
                        assert(self.secrets@ == smid.push((path@, Option::<SecretV>::None)));
                        let head = if m.backend == Backend::Vault && m.args.len() > 0 {
                            seq![MsgV::Login(m.args[0])]
                        } else {
                            Seq::<MsgV>::empty()
                        };
                        assert(load_msgs(cs.skip(i as int), smid) == head + seq![
                            MsgV::GetSecret(cs[i as int].0, false),
                        ] + load_msgs(cs.skip(i + 1), smid.push((cs[i as int].0, Option::None))));
                        assert(msg_views(queue@) + seq![gm@] =~= (qmid + head) + seq![gm@]);
                        assert((qmid + head) + seq![gm@] =~= qmid + (head + seq![gm@]));
                        assert(qmid + (head + seq![gm@]) + load_msgs(
                            cs.skip(i + 1),
                            self.secrets@,
                        ) =~= qmid + ((head + seq![gm@]) + load_msgs(
                            cs.skip(i + 1),
                            self.secrets@,
                        )));
                    }
                    queue.push(gm);
                },
            }
            i += 1;
        }
        proof {
            assert(cs.skip(n as int) =~= Seq::<(Seq<char>, Seq<char>)>::empty());
        }
        // a job without secrets is materialized at once
        if conf.secrets.len() == 0 {
            let gm = Message::GenerateTemplate(tmpl.to_owned());
            proof {
                assert(msg_views(queue@.push(gm)) =~= msg_views(queue@) + seq![gm@]);
            }
            queue.push(gm);
        } else {
            proof {
                assert(msg_views(queue@) + Seq::<MsgV>::empty() =~= msg_views(queue@));
            }
        }
        let ghost confv = conf@;
        self.confs.insert(tmpl.to_owned(), conf);
        proof {
            lemma_assoc_set_entries(old(self).confs@, tmpl@, confv);
            assert forall|x: int| 0 <= x < self.confs@.len() implies conf_keys_parse(
                (#[trigger] self.confs@[x]).1.secrets,
            ) by {
                if self.confs@[x] == (tmpl@, confv) {
                } else {
                    assert(old(self).confs@.contains(self.confs@[x]));
                    let w = choose|w: int|
                        0 <= w < old(self).confs@.len() && old(self).confs@[w] == self.confs@[x];
                    assert(conf_keys_parse(old(self).confs@[w].1.secrets));
                }
            }
        }
        Ok(())
    }

    /// Is a fresh login needed for the role?
    pub fn login_needed(&self, role: &str, now: u64) -> (r: bool)
        ensures
            r == !(assoc_get(self.auths@, role@) matches Option::Some(a)
                && a.is_fresh(now)),
    {
        !self.auths.is_logged(role, now)
    }

    /// Cache the handle a login returned, and say after what delay the
    /// login is to be repeated: two thirds of the lease for a renewable
    /// handle, never otherwise.
    pub fn store_login(
        &mut self,
        role: &str,
        client_token: String,
        lease_duration: u64,
        renewable: bool,
        now: u64,
    ) -> (renew: Option<u64>)
        requires
            old(self).inv(),
        ensures
            final(self).inv(),
            final(self).auths@ == assoc_set(
                old(self).auths@,
                role@,
                AuthV { client_token: client_token@, lease_duration, renewable, fetched_at: now },
            ),
            renew == (if renewable {
                Option::Some(two_thirds(lease_duration))
            } else {
                Option::<u64>::None
            }),
            final(self).secrets@ == old(self).secrets@,
            final(self).confs@ == old(self).confs@,
            final(self).checksums@ == old(self).checksums@,
            final(self).current_user == old(self).current_user,
            final(self).daemon == old(self).daemon,
            final(self).first_run == old(self).first_run,
            final(self).generated == old(self).generated,
    {
        let auth = Auth { client_token, lease_duration, renewable, fetched_at: now };
        let renew = auth.renew_delay();
        self.auths.store(role, auth);
        renew
    }

    /// The freshness guard of `GetSecret`: no fetch is needed while the
    /// stored value is present, valid and not yet due for renewal.
    pub fn fetch_needed(&self, path: &str, now: u64) -> (r: bool)
        ensures
            r == !(assoc_get(self.secrets@, path@) matches Option::Some(slot)
                && slot matches Option::Some(s) && s.is_valid(now) && !s.to_renew(now)),
    {
        match self.secrets.get(path) {
            Option::None => true,
            Option::Some(slot) => match slot {
                Option::None => true,
                Option::Some(s) => !(s.is_valid(now) && !s.to_renew(now)),
            },
        }
    }

    /// Store a fetched secret and drive the consequences: report the renew
    /// delay to schedule (two thirds of the lease, for a renewable lease),
    /// and, when the payload changed and the fetch was allowed to trigger,
    /// enqueue the refreshes and regenerations of every job that declares
    /// the path and is fully filled.
    pub fn store_secret(
        &mut self,
        path: &str,
        secret: Secret,
        gen_tmpl: bool,
        now: u64,
        queue: &mut Vec<Message>,
    ) -> (renew: Option<u64>)
        requires
            old(self).inv(),
        ensures
            final(self).inv(),
            renew == secret@.renew_delay(),
            final(self).secrets@ == assoc_set(
                old(self).secrets@,
                path@,
                Option::Some(secret@),
            ),
            final(self).confs@ == old(self).confs@,
            final(self).checksums@ == old(self).checksums@,
            final(self).auths@ == old(self).auths@,
            final(self).current_user == old(self).current_user,
            final(self).daemon == old(self).daemon,
            final(self).first_run == old(self).first_run,
            final(self).generated == old(self).generated,
            ({
                let changed = match assoc_get(old(self).secrets@, path@) {
                    Option::None => true,
                    Option::Some(Option::None) => true,
                    Option::Some(Option::Some(prev)) => prev.value != secret@.value,
                };
                msg_views(final(queue)@) == msg_views(old(queue)@) + (if changed && gen_tmpl {
                    gen_msgs(
                        old(self).confs@,
                        assoc_set(old(self).secrets@, path@, Option::Some(secret@)),
                        path@,
                        now,
                    )
                } else {
                    Seq::<MsgV>::empty()
                })
            }),
    {
        let renew = secret.renew_delay();
        let changed = self.secrets.replace(path, secret);
        if changed && gen_tmpl {
            self.confs.generate_templates(&self.secrets, path, now, queue);
        } else {
            proof {
                assert(msg_views(queue@) + Seq::<MsgV>::empty() =~= msg_views(queue@));
            }
        }
        renew
    }

    /// The evaluator's `secrets` input for a job: binding name to stored
    /// value, for every declared secret whose value is filled.
    pub fn bindings(&self, tmpl: &str) -> (r: Option<Vec<(String, Json)>>)
        ensures
            match r {
                Option::Some(bs) => assoc_get(self.confs@, tmpl@) matches
                    Option::Some(c) && bs@.map_values(|p: (String, Json)| (p.0@, p.1@))
                    == spec_bindings(c.secrets, self.secrets@),
                Option::None => assoc_get(self.confs@, tmpl@) is None,
            },
    {
        let conf = match self.confs.get(tmpl) {
            Option::None => {
                return Option::None;
            },
            Option::Some(c) => c,
        };
        let ghost cs = conf@.secrets;
        proof {
            assert(forall|x: int| 0 <= x < cs.len() ==> #[trigger] cs[x] == (
            conf.secrets@[x].0@, conf.secrets@[x].1@));
            assert(cs.skip(0) =~= cs);
        }
        let mut out: Vec<(String, Json)> = Vec::new();
        proof {
            assert(out@.map_values(|p: (String, Json)| (p.0@, p.1@)) =~= Seq::<
                (Seq<char>, JsonV),
            >::empty());
            assert(out@.map_values(|p: (String, Json)| (p.0@, p.1@)) + spec_bindings(
                cs,
                self.secrets@,
            ) =~= spec_bindings(cs, self.secrets@));
        }
        let n = conf.secrets.len();
        let mut i: usize = 0;
        while i < n
            invariant
                n == cs.len(),
                i <= n,
                cs.len() == conf.secrets@.len(),
                forall|x: int| 0 <= x < cs.len() ==> #[trigger] cs[x] == (conf.secrets@[x].0@,
                conf.secrets@[x].1@),
                spec_bindings(cs, self.secrets@) == out@.map_values(
                    |p: (String, Json)| (p.0@, p.1@),
                ) + spec_bindings(cs.skip(i as int), self.secrets@),
            decreases n - i,
        {
            proof {
                assert(cs.skip(i as int)[0] == cs[i as int]);
                assert(cs.skip(i as int).skip(1) =~= cs.skip(i + 1));
            }
            match self.secrets.get(conf.secrets[i].0.as_str()) {
                Option::Some(slot) => {
                    match slot {
                        Option::Some(s) => {
                            let name = conf.secrets[i].1.clone();
                            let v = crate::value::json_clone(&s.value);
                            proof {
                                let b = (cs[i as int].1, s@.value);
                                assert(out@.push((name, v)).map_values(
                                    |p: (String, Json)| (p.0@, p.1@),
                                ) =~= out@.map_values(|p: (String, Json)| (p.0@, p.1@)) + seq![b]);
                                assert((out@.map_values(|p: (String, Json)| (p.0@, p.1@)) + seq![
                                    b,
                                ]) + spec_bindings(cs.skip(i + 1), self.secrets@)
                                    =~= out@.map_values(|p: (String, Json)| (p.0@, p.1@)) + (seq![
                                    b,
                                ] + spec_bindings(cs.skip(i + 1), self.secrets@)));
                            }
                            out.push((name, v));
                        },
                        Option::None => {
                            proof {
                                assert(spec_bindings(cs.skip(i as int), self.secrets@) =~= Seq::<
                                    (Seq<char>, JsonV),
                                >::empty() + spec_bindings(cs.skip(i + 1), self.secrets@));
                                assert(Seq::<(Seq<char>, JsonV)>::empty() + spec_bindings(
                                    cs.skip(i + 1),
                                    self.secrets@,
                                ) =~= spec_bindings(cs.skip(i + 1), self.secrets@));
                            }
                        },
                    }
                },
                Option::None => {
                    proof {
                        assert(spec_bindings(cs.skip(i as int), self.secrets@) =~= Seq::<
                            (Seq<char>, JsonV),
                        >::empty() + spec_bindings(cs.skip(i + 1), self.secrets@));
                        assert(Seq::<(Seq<char>, JsonV)>::empty() + spec_bindings(
                            cs.skip(i + 1),
                            self.secrets@,
                        ) =~= spec_bindings(cs.skip(i + 1), self.secrets@));
                    }
                },
            }
            i += 1;
        }
        proof {
            assert(cs.skip(n as int) =~= Seq::<(Seq<char>, Seq<char>)>::empty());
            assert(out@.map_values(|p: (String, Json)| (p.0@, p.1@)) + Seq::<
                (Seq<char>, JsonV),
            >::empty() =~= out@.map_values(|p: (String, Json)| (p.0@, p.1@)));
        }
        Option::Some(out)
    }

    /// Note whether an output file already existed before it was written.
    /// A pre-existing output means a restart rather than a first install,
    /// so the first-run latch falls and the initial `modified` hooks stay
    /// quiet.
    pub fn note_existing(&mut self, already_there: bool)
        ensures
            final(self).first_run == (old(self).first_run && !already_there),
            final(self).secrets@ == old(self).secrets@,
            final(self).confs@ == old(self).confs@,
            final(self).checksums@ == old(self).checksums@,
            final(self).auths@ == old(self).auths@,
            final(self).current_user == old(self).current_user,
            final(self).daemon == old(self).daemon,
            final(self).generated == old(self).generated,
            old(self).inv() ==> final(self).inv(),
    {
        if self.first_run && already_there {
            self.first_run = false;
        }
    }

    /// Account one finished template: which hooks to fire, whether the pass
    /// is complete, and whether the process is done.  In daemon mode the
    /// broker stays alive after a full pass exactly when some stored secret
    /// is leased; otherwise one full pass ends the process.
    pub fn finish_template(&mut self, changed: bool) -> (r: Finish)
        requires
            old(self).inv(),
            old(self).generated < old(self).confs@.len(),
        ensures
            final(self).inv(),
            r.fire_modified == (changed && !old(self).first_run),
            r.pass_complete == (old(self).generated + 1 == old(self).confs@.len()),
            r.pass_complete ==> final(self).generated == 0 && !final(self).first_run && r.exit
                == !(old(self).daemon && any_leased_in(old(self).secrets@)),
            !r.pass_complete ==> final(self).generated == old(self).generated + 1
                && final(self).first_run == old(self).first_run && !r.exit,
            final(self).secrets@ == old(self).secrets@,
            final(self).confs@ == old(self).confs@,
            final(self).checksums@ == old(self).checksums@,
            final(self).auths@ == old(self).auths@,
            final(self).current_user == old(self).current_user,
            final(self).daemon == old(self).daemon,
    {
        let fire_modified = changed && !self.first_run;
        let total = self.confs.len();
        self.generated = self.generated + 1;
        let pass_complete = self.generated == total;
        let mut exit = false;
        if pass_complete {
            self.generated = 0;
            self.first_run = false;
            exit = !self.daemon || !self.secrets.any_leased();
        }
        Finish { fire_modified, pass_complete, exit }
    }
}

} // verus!
