//! Template jobs, their registry, and the enqueueing rules that drive
//! materialization.

use vstd::prelude::*;

use crate::assoc::{assoc_find, assoc_get, assoc_set, distinct_keys, lemma_assoc_absent,
    lemma_assoc_found};
use crate::message::{msg_views, Message, MsgV};
use crate::secret::SecretV;
use crate::secrets::Secrets;
use crate::text::{first_is, spec_split_ws, split_ws, str_eq};

verus! {

/// The two command lines a job may carry.
#[derive(Debug)]
pub struct Hooks {
    /// Executed whenever some files have been modified.
    pub modified: Option<String>,
    /// Executed right after the first full pass.
    pub ready: Option<String>,
}

/// Model of [`Hooks`].
pub struct HooksV {
    pub modified: Option<Seq<char>>,
    pub ready: Option<Seq<char>>,
}

impl View for Hooks {
    type V = HooksV;

    open spec fn view(&self) -> HooksV {
        HooksV {
            modified: match self.modified {
                Option::None => Option::None,
                Option::Some(ref s) => Option::Some(s@),
            },
            ready: match self.ready {
                Option::None => Option::None,
                Option::Some(ref s) => Option::Some(s@),
            },
        }
    }
}

/// Which hook to fire.
#[derive(Debug, PartialEq, Eq, Structural, Copy, Clone)]
pub enum HookType {
    MODIFIED,
    READY,
}

/// The command line a hook selects, if any.
pub open spec fn spec_hook_cmd(h: HooksV, t: HookType) -> Option<Seq<char>> {
    match t {
        HookType::MODIFIED => h.modified,
        HookType::READY => h.ready,
    }
}

/// What to do for a hook: nothing, refuse a relative program, or run.
#[derive(Debug, PartialEq, Eq)]
pub enum HookCommand {
    /// No hook is defined, or its command line is blank.
    Absent,
    /// The command line whose program is not an absolute path.
    Rejected(String),
    /// The whitespace-split command line to run.
    Exec(Vec<String>),
}

impl Hooks {
    /// Plan the firing of a hook: split its command line on whitespace and
    /// require an absolute program, as the `exe` backend does.
    pub fn trigger_plan(&self, hook_type: HookType) -> (r: HookCommand)
        ensures
            ({
                let cmd = spec_hook_cmd(self@, hook_type);
                match r {
                    HookCommand::Absent => cmd is None || spec_split_ws(cmd->Some_0).len() == 0,
                    HookCommand::Rejected(line) => cmd matches Option::Some(c) && line@ == c
                        && spec_split_ws(c).len() > 0 && !(spec_split_ws(c)[0].len() > 0
                        && spec_split_ws(c)[0][0] == '/'),
                    HookCommand::Exec(argv) => cmd matches Option::Some(c) && argv@.map_values(
                        |s: String| s@,
                    ) == spec_split_ws(c) && spec_split_ws(c).len() > 0 && spec_split_ws(
                        c,
                    )[0].len() > 0 && spec_split_ws(c)[0][0] == '/',
                }
            }),
    {
        let cmd = match hook_type {
            HookType::MODIFIED => &self.modified,
            HookType::READY => &self.ready,
        };
        match cmd {
            Option::None => HookCommand::Absent,
            Option::Some(line) => {
                let argv = split_ws(line.as_str());
                if argv.len() == 0 {
                    return HookCommand::Absent;
                }
                proof {
                    assert(argv@.map_values(|s: String| s@)[0] == spec_split_ws(line@)[0]);
                }
                if first_is(argv[0].as_str(), '/') {
                    HookCommand::Exec(argv)
                } else {
                    HookCommand::Rejected(line.clone())
                }
            },
        }
    }
}

/// One template job.
#[derive(Debug)]
pub struct TemplateConf {
    /// Base directory for the files the template emits.
    pub dir: String,
    /// Octal mode of the resulting files.
    pub mode: String,
    /// Owner of the resulting files; empty for the process's own.
    pub user: String,
    /// Declared secrets: secret-path text to the binding name under which
    /// the value is exposed to the evaluator.
    pub secrets: Vec<(String, String)>,
    /// Commands to run on events.
    pub hooks: Hooks,
}

/// Model of a template job.
pub struct ConfV {
    pub dir: Seq<char>,
    pub mode: Seq<char>,
    pub user: Seq<char>,
    pub secrets: Seq<(Seq<char>, Seq<char>)>,
    pub hooks: HooksV,
}

impl View for TemplateConf {
    type V = ConfV;

    open spec fn view(&self) -> ConfV {
        ConfV {
            dir: self.dir@,
            mode: self.mode@,
            user: self.user@,
            secrets: self.secrets@.map_values(|p: (String, String)| (p.0@, p.1@)),
            hooks: self.hooks@,
        }
    }
}

/// Are all of the job's declared secrets filled in the store?
pub open spec fn all_defined(
    store: Seq<(Seq<char>, Option<SecretV>)>,
    cs: Seq<(Seq<char>, Seq<char>)>,
) -> bool {
    forall|j: int| 0 <= j < cs.len() ==> ((#[trigger] assoc_get(store, cs[j].0)) matches
        Option::Some(slot) && slot is Some)
}

/// Do all of the job's declared secrets at least have a slot in the store?
pub open spec fn all_present(
    store: Seq<(Seq<char>, Option<SecretV>)>,
    cs: Seq<(Seq<char>, Seq<char>)>,
) -> bool {
    forall|j: int| 0 <= j < cs.len() ==> (#[trigger] assoc_get(store, cs[j].0)) is Some
}

/// The refresh messages sent before a job is regenerated: one fetch,
/// without re-triggering, for every declared secret whose stored value is
/// missing or no longer valid.
pub open spec fn conf_fetches(
    store: Seq<(Seq<char>, Option<SecretV>)>,
    cs: Seq<(Seq<char>, Seq<char>)>,
    now: u64,
) -> Seq<MsgV>
    decreases store.len(),
{
    if store.len() == 0 {
        Seq::empty()
    } else {
        (if assoc_get(cs, store[0].0) is Some && !(store[0].1 matches Option::Some(s)
            && s.is_valid(now)) {
            seq![MsgV::GetSecret(store[0].0, false)]
        } else {
            Seq::empty()
        }) + conf_fetches(store.skip(1), cs, now)
    }
}

/// The messages one job contributes when the secret at `path` changed.
pub open spec fn conf_msgs(
    tmpl: Seq<char>,
    c: ConfV,
    store: Seq<(Seq<char>, Option<SecretV>)>,
    path: Seq<char>,
    now: u64,
) -> Seq<MsgV> {
    if assoc_get(c.secrets, path) is Some && all_defined(store, c.secrets) {
        conf_fetches(store, c.secrets, now) + seq![MsgV::GenerateTemplate(tmpl)]
    } else {
        Seq::empty()
    }
}

/// The messages the whole registry contributes when `path` changed.
pub open spec fn gen_msgs(
    confs: Seq<(Seq<char>, ConfV)>,
    store: Seq<(Seq<char>, Option<SecretV>)>,
    path: Seq<char>,
    now: u64,
) -> Seq<MsgV>
    decreases confs.len(),
{
    if confs.len() == 0 {
        Seq::empty()
    } else {
        conf_msgs(confs[0].0, confs[0].1, store, path, now) + gen_msgs(
            confs.skip(1),
            store,
            path,
            now,
        )
    }
}

/// The generate messages of the startup sweep: one per job whose declared
/// secrets all have slots.
pub open spec fn gen_all_msgs(
    confs: Seq<(Seq<char>, ConfV)>,
    store: Seq<(Seq<char>, Option<SecretV>)>,
) -> Seq<MsgV>
    decreases confs.len(),
{
    if confs.len() == 0 {
        Seq::empty()
    } else {
        (if all_present(store, confs[0].1.secrets) {
            seq![MsgV::GenerateTemplate(confs[0].0)]
        } else {
            Seq::empty()
        }) + gen_all_msgs(confs.skip(1), store)
    }
}

/// The jobs the startup sweep skips: those with a declared secret that has
/// no slot at all.
pub open spec fn skipped_confs(
    confs: Seq<(Seq<char>, ConfV)>,
    store: Seq<(Seq<char>, Option<SecretV>)>,
) -> Seq<Seq<char>>
    decreases confs.len(),
{
    if confs.len() == 0 {
        Seq::empty()
    } else {
        (if all_present(store, confs[0].1.secrets) {
            Seq::empty()
        } else {
            seq![confs[0].0]
        }) + skipped_confs(confs.skip(1), store)
    }
}

/// The registry: template reference to job, in insertion order.
pub struct TemplateConfs {
    entries: Vec<(String, TemplateConf)>,
}

impl View for TemplateConfs {
    type V = Seq<(Seq<char>, ConfV)>;

    closed spec fn view(&self) -> Seq<(Seq<char>, ConfV)> {
        self.entries@.map_values(|p: (String, TemplateConf)| (p.0@, p.1@))
    }
}

impl TemplateConfs {
    pub open spec fn wf(&self) -> bool {
        distinct_keys(self@)
    }

    pub fn new() -> (r: Self)
        ensures
            r@.len() == 0,
            r.wf(),
    {
        let r = TemplateConfs { entries: Vec::new() };
        proof {
            assert(r@ =~= Seq::<(Seq<char>, ConfV)>::empty());
        }
        r
    }

    pub fn len(&self) -> (r: usize)
        ensures
            r == self@.len(),
    {
        self.entries.len()
    }

    /// The job at position `i`, in insertion order.
    pub fn at(&self, i: usize) -> (r: &(String, TemplateConf))
        requires
            i < self@.len(),
        ensures
            self@[i as int] == (r.0@, r.1@),
    {
        &self.entries[i]
    }

    /// The job registered under `tmpl`, if any.
    pub fn get(&self, tmpl: &str) -> (r: Option<&TemplateConf>)
        ensures
            match r {
                Option::Some(c) => assoc_get(self@, tmpl@) == Option::Some(c@),
                Option::None => assoc_get(self@, tmpl@) is None,
            },
    {
        proof {
            assert(forall|j: int| 0 <= j < self@.len() ==> #[trigger] self@[j] == (
            self.entries@[j].0@, self.entries@[j].1@));
        }
        match assoc_find(&self.entries, tmpl) {
            Option::Some(i) => {
                proof {
                    lemma_assoc_found(self@, tmpl@, self.entries@[i as int].1@, i as int);
                }
                Option::Some(&self.entries[i].1)
            },
            Option::None => {
                proof {
                    lemma_assoc_absent(
                        self@,
                        tmpl@,
                        ConfV {
                            dir: Seq::empty(),
                            mode: Seq::empty(),
                            user: Seq::empty(),
                            secrets: Seq::empty(),
                            hooks: HooksV { modified: Option::None, ready: Option::None },
                        },
                    );
                }
                Option::None
            },
        }
    }

    /// Register a job; a job already registered under the same reference is
    /// replaced.
    pub fn insert(&mut self, tmpl: String, conf: TemplateConf)
        requires
            old(self).wf(),
        ensures
            final(self)@ == assoc_set(old(self)@, tmpl@, conf@),
            final(self).wf(),
    {
        let ghost pre = self@;
        let ghost cv = conf@;
        proof {
            assert(forall|j: int| 0 <= j < pre.len() ==> #[trigger] pre[j] == (
            self.entries@[j].0@, self.entries@[j].1@));
        }
        match assoc_find(&self.entries, tmpl.as_str()) {
            Option::Some(i) => {
                proof {
                    lemma_assoc_found(pre, tmpl@, cv, i as int);
                }
                let slot = vstd::std_specs::vec::vec_index_mut(&mut self.entries, i);
                *slot = (tmpl, conf);
                proof {
                    assert(self@ =~= pre.update(i as int, (self.entries@[i as int].0@, cv)));
                    assert forall|x: int, y: int| 0 <= x < y < self@.len() implies (
                    #[trigger] self@[x].0) != (#[trigger] self@[y].0) by {
                        assert(self@[x].0 == pre[x].0);
                        assert(self@[y].0 == pre[y].0);
                    }
                }
            },
            Option::None => {
                proof {
                    lemma_assoc_absent(pre, tmpl@, cv);
                }
                self.entries.push((tmpl, conf));
                proof {
                    assert(self@ =~= pre.push((self.entries@.last().0@, cv)));
                    assert forall|x: int, y: int| 0 <= x < y < self@.len() implies (
                    #[trigger] self@[x].0) != (#[trigger] self@[y].0) by {
                        if y == self@.len() - 1 {
                            assert(pre[x] == self@[x]);
                        }
                    }
                }
            },
        }
    }
}

/// Does the job declare the secret at `path`?
fn conf_declares(conf: &TemplateConf, path: &str) -> (r: bool)
    ensures
        r == (assoc_get(conf@.secrets, path@) is Some),
{
    proof {
        assert(forall|j: int| 0 <= j < conf@.secrets.len() ==> #[trigger] conf@.secrets[j] == (
        conf.secrets@[j].0@, conf.secrets@[j].1@));
    }
    match assoc_find(&conf.secrets, path) {
        Option::Some(i) => {
            proof {
                lemma_assoc_found(conf@.secrets, path@, conf@.secrets[i as int].1, i as int);
            }
            true
        },
        Option::None => {
            proof {
                lemma_assoc_absent(conf@.secrets, path@, Seq::<char>::empty());
            }
            false
        },
    }
}

/// Are all declared secrets of the job filled in the store?
fn conf_all_defined(conf: &TemplateConf, secrets: &Secrets) -> (r: bool)
    ensures
        r == all_defined(secrets@, conf@.secrets),
{
    proof {
        assert(forall|j: int| 0 <= j < conf@.secrets.len() ==> #[trigger] conf@.secrets[j] == (
        conf.secrets@[j].0@, conf.secrets@[j].1@));
    }
    let mut j: usize = 0;
    while j < conf.secrets.len()
        invariant
            j <= conf@.secrets.len(),
            conf@.secrets.len() == conf.secrets@.len(),
            forall|x: int| 0 <= x < conf@.secrets.len() ==> #[trigger] conf@.secrets[x] == (
            conf.secrets@[x].0@, conf.secrets@[x].1@),
            forall|x: int| 0 <= x < j ==> ((#[trigger] assoc_get(secrets@, conf@.secrets[x].0))
                matches Option::Some(slot) && slot is Some),
        decreases conf@.secrets.len() - j,
    {
        match secrets.get(conf.secrets[j].0.as_str()) {
            Option::None => {
                proof {
                    assert(!((#[trigger] assoc_get(secrets@, conf@.secrets[j as int].0)) matches
                        Option::Some(slot) && slot is Some));
                }
                return false;
            },
            Option::Some(slot) => {
                match slot {
                    Option::None => {
                        proof {
                            assert(!((#[trigger] assoc_get(secrets@, conf@.secrets[j as int].0))
                                matches Option::Some(s) && s is Some));
                        }
                        return false;
                    },
                    Option::Some(_s) => {},
                }
            },
        }
        j += 1;
    }
    true
}

/// Do all declared secrets of the job at least have slots?
fn conf_all_present(conf: &TemplateConf, secrets: &Secrets) -> (r: bool)
    ensures
        r == all_present(secrets@, conf@.secrets),
{
    proof {
        assert(forall|j: int| 0 <= j < conf@.secrets.len() ==> #[trigger] conf@.secrets[j] == (
        conf.secrets@[j].0@, conf.secrets@[j].1@));
    }
    let mut j: usize = 0;
    while j < conf.secrets.len()
        invariant
            j <= conf@.secrets.len(),
            conf@.secrets.len() == conf.secrets@.len(),
            forall|x: int| 0 <= x < conf@.secrets.len() ==> #[trigger] conf@.secrets[x] == (
            conf.secrets@[x].0@, conf.secrets@[x].1@),
            forall|x: int| 0 <= x < j ==> (#[trigger] assoc_get(secrets@, conf@.secrets[x].0))
                is Some,
        decreases conf@.secrets.len() - j,
    {
        match secrets.get(conf.secrets[j].0.as_str()) {
            Option::None => {
                proof {
                    assert(!((#[trigger] assoc_get(secrets@, conf@.secrets[j as int].0))
                        is Some));
                }
                return false;
            },
            Option::Some(_slot) => {},
        }
        j += 1;
    }
    true
}

/// Push one fetch, without re-triggering, for every declared secret of the
/// job whose stored value is missing or stale.
fn push_conf_fetches(conf: &TemplateConf, secrets: &Secrets, now: u64, queue: &mut Vec<Message>)
    ensures
        msg_views(final(queue)@) == msg_views(old(queue)@) + conf_fetches(
            secrets@,
            conf@.secrets,
            now,
        ),
{
    let n = secrets.len();
    let mut i: usize = 0;
    proof {
        assert(secrets@.skip(0) =~= secrets@);
        assert(msg_views(queue@) + Seq::<MsgV>::empty() =~= msg_views(queue@));
    }
    while i < n
        invariant
            n == secrets@.len(),
            i <= n,
            msg_views(old(queue)@) + conf_fetches(secrets@, conf@.secrets, now) == msg_views(
                queue@,
            ) + conf_fetches(secrets@.skip(i as int), conf@.secrets, now),
        decreases n - i,
    {
        proof {
            assert(secrets@.skip(i as int)[0] == secrets@[i as int]);
            assert(secrets@.skip(i as int).skip(1) =~= secrets@.skip(i + 1));
        }
        let entry = secrets.at(i);
        let stale = match &entry.1 {
            Option::Some(s) => !s.is_valid(now),
            Option::None => true,
        };
        if stale && conf_declares(conf, entry.0.as_str()) {
            let m = Message::GetSecret(entry.0.clone(), false);
            proof {
                assert(msg_views(queue@.push(m)) =~= msg_views(queue@) + seq![m@]);
                assert(conf_fetches(secrets@.skip(i as int), conf@.secrets, now) == seq![
                    MsgV::GetSecret(secrets@[i as int].0, false),
                ] + conf_fetches(secrets@.skip(i + 1), conf@.secrets, now));
                assert((msg_views(queue@) + seq![m@]) + conf_fetches(
                    secrets@.skip(i + 1),
                    conf@.secrets,
                    now,
                ) =~= msg_views(queue@) + (seq![m@] + conf_fetches(
                    secrets@.skip(i + 1),
                    conf@.secrets,
                    now,
                )));
            }
            queue.push(m);
        } else {
            proof {
                assert(conf_fetches(secrets@.skip(i as int), conf@.secrets, now) =~= Seq::<
                    MsgV,
                >::empty() + conf_fetches(secrets@.skip(i + 1), conf@.secrets, now));
                assert(Seq::<MsgV>::empty() + conf_fetches(secrets@.skip(i + 1), conf@.secrets, now)
                    =~= conf_fetches(secrets@.skip(i + 1), conf@.secrets, now));
            }
        }
        i += 1;
    }
    proof {
        assert(secrets@.skip(n as int) =~= Seq::<(Seq<char>, Option<SecretV>)>::empty());
        assert(conf_fetches(Seq::<(Seq<char>, Option<SecretV>)>::empty(), conf@.secrets, now)
            =~= Seq::<MsgV>::empty());
        assert(msg_views(queue@) + Seq::<MsgV>::empty() =~= msg_views(queue@));
    }
}

impl TemplateConfs {
    /// Regenerate the jobs that declare the secret at `path` and whose
    /// declared secrets are all filled: first refresh what is stale,
    /// without re-triggering, then ask for the template.
    pub fn generate_templates(
        &self,
        secrets: &Secrets,
        path: &str,
        now: u64,
        queue: &mut Vec<Message>,
    )
        ensures
            msg_views(final(queue)@) == msg_views(old(queue)@) + gen_msgs(
                self@,
                secrets@,
                path@,
                now,
            ),
    {
        let n = self.len();
        let mut i: usize = 0;
        proof {
            assert(self@.skip(0) =~= self@);
            assert(msg_views(queue@) + Seq::<MsgV>::empty() =~= msg_views(queue@));
        }
        while i < n
            invariant
                n == self@.len(),
                i <= n,
                msg_views(old(queue)@) + gen_msgs(self@, secrets@, path@, now) == msg_views(
                    queue@,
                ) + gen_msgs(self@.skip(i as int), secrets@, path@, now),
            decreases n - i,
        {
            proof {
                assert(self@.skip(i as int)[0] == self@[i as int]);
                assert(self@.skip(i as int).skip(1) =~= self@.skip(i + 1));
            }
            let entry = self.at(i);
            let ghost qmid = msg_views(queue@);
            if conf_declares(&entry.1, path) && conf_all_defined(&entry.1, secrets) {
                push_conf_fetches(&entry.1, secrets, now, queue);
                let m = Message::GenerateTemplate(entry.0.clone());
                proof {
                    assert(msg_views(queue@.push(m)) =~= msg_views(queue@) + seq![m@]);
                    assert(conf_msgs(self@[i as int].0, self@[i as int].1, secrets@, path@, now)
                        == conf_fetches(secrets@, self@[i as int].1.secrets, now) + seq![
                        MsgV::GenerateTemplate(self@[i as int].0),
                    ]);
                    assert((qmid + conf_fetches(secrets@, self@[i as int].1.secrets, now)) + seq![
                        m@,
                    ] =~= qmid + (conf_fetches(secrets@, self@[i as int].1.secrets, now) + seq![
                        m@,
                    ]));
                    assert((qmid + conf_msgs(
                        self@[i as int].0,
                        self@[i as int].1,
                        secrets@,
                        path@,
                        now,
                    )) + gen_msgs(self@.skip(i + 1), secrets@, path@, now) =~= qmid + (conf_msgs(
                        self@[i as int].0,
                        self@[i as int].1,
                        secrets@,
                        path@,
                        now,
                    ) + gen_msgs(self@.skip(i + 1), secrets@, path@, now)));
                }
                queue.push(m);
            } else {
                proof {
                    assert(conf_msgs(self@[i as int].0, self@[i as int].1, secrets@, path@, now)
                        =~= Seq::<MsgV>::empty());
                    assert(gen_msgs(self@.skip(i as int), secrets@, path@, now) =~= Seq::<
                        MsgV,
                    >::empty() + gen_msgs(self@.skip(i + 1), secrets@, path@, now));
                    assert(Seq::<MsgV>::empty() + gen_msgs(self@.skip(i + 1), secrets@, path@, now)
                        =~= gen_msgs(self@.skip(i + 1), secrets@, path@, now));
                }
            }
            i += 1;
        }
        proof {
            assert(self@.skip(n as int) =~= Seq::<(Seq<char>, ConfV)>::empty());
            assert(gen_msgs(Seq::<(Seq<char>, ConfV)>::empty(), secrets@, path@, now) =~= Seq::<
                MsgV,
            >::empty());
            assert(msg_views(queue@) + Seq::<MsgV>::empty() =~= msg_views(queue@));
        }
    }

    /// The startup sweep: ask for every job whose declared secrets all have
    /// slots; report the references of the jobs skipped for want of one.
    pub fn generate_all_templates(&self, secrets: &Secrets, queue: &mut Vec<Message>) -> (skipped:
        Vec<String>)
        ensures
            msg_views(final(queue)@) == msg_views(old(queue)@) + gen_all_msgs(self@, secrets@),
            skipped@.map_values(|s: String| s@) == skipped_confs(self@, secrets@),
    {
        let n = self.len();
        let mut skipped: Vec<String> = Vec::new();
        let mut i: usize = 0;
        proof {
            assert(self@.skip(0) =~= self@);
            assert(msg_views(queue@) + Seq::<MsgV>::empty() =~= msg_views(queue@));
            assert(skipped@.map_values(|s: String| s@) =~= Seq::<Seq<char>>::empty());
            assert(skipped@.map_values(|s: String| s@) + skipped_confs(self@, secrets@)
                =~= skipped_confs(self@, secrets@));
        }
        while i < n
            invariant
                n == self@.len(),
                i <= n,
                msg_views(old(queue)@) + gen_all_msgs(self@, secrets@) == msg_views(queue@)
                    + gen_all_msgs(self@.skip(i as int), secrets@),
                skipped_confs(self@, secrets@) == skipped@.map_values(|s: String| s@)
                    + skipped_confs(self@.skip(i as int), secrets@),
            decreases n - i,
        {
            proof {
                assert(self@.skip(i as int)[0] == self@[i as int]);
                assert(self@.skip(i as int).skip(1) =~= self@.skip(i + 1));
            }
            let entry = self.at(i);
            if conf_all_present(&entry.1, secrets) {
                let m = Message::GenerateTemplate(entry.0.clone());
                proof {
                    assert(msg_views(queue@.push(m)) =~= msg_views(queue@) + seq![m@]);
                    assert(gen_all_msgs(self@.skip(i as int), secrets@) == seq![m@]
                        + gen_all_msgs(self@.skip(i + 1), secrets@));
                    assert((msg_views(queue@) + seq![m@]) + gen_all_msgs(
                        self@.skip(i + 1),
                        secrets@,
                    ) =~= msg_views(queue@) + (seq![m@] + gen_all_msgs(
                        self@.skip(i + 1),
                        secrets@,
                    )));
                    assert(skipped_confs(self@.skip(i as int), secrets@) =~= Seq::<
                        Seq<char>,
                    >::empty() + skipped_confs(self@.skip(i + 1), secrets@));
                    assert(Seq::<Seq<char>>::empty() + skipped_confs(self@.skip(i + 1), secrets@)
                        =~= skipped_confs(self@.skip(i + 1), secrets@));
                }
                queue.push(m);
            } else {
                let s = entry.0.clone();
                proof {
                    assert(skipped@.push(s).map_values(|x: String| x@) =~= skipped@.map_values(
                        |x: String| x@,
                    ) + seq![s@]);
                    assert(skipped_confs(self@.skip(i as int), secrets@) == seq![
                        self@[i as int].0,
                    ] + skipped_confs(self@.skip(i + 1), secrets@));
                    assert((skipped@.map_values(|x: String| x@) + seq![s@]) + skipped_confs(
                        self@.skip(i + 1),
                        secrets@,
                    ) =~= skipped@.map_values(|x: String| x@) + (seq![s@] + skipped_confs(
                        self@.skip(i + 1),
                        secrets@,
                    )));
                    assert(gen_all_msgs(self@.skip(i as int), secrets@) =~= Seq::<
                        MsgV,
                    >::empty() + gen_all_msgs(self@.skip(i + 1), secrets@));
                    assert(Seq::<MsgV>::empty() + gen_all_msgs(self@.skip(i + 1), secrets@)
                        =~= gen_all_msgs(self@.skip(i + 1), secrets@));
                }
                skipped.push(s);
            }
            i += 1;
        }
        proof {
            assert(self@.skip(n as int) =~= Seq::<(Seq<char>, ConfV)>::empty());
            assert(gen_all_msgs(Seq::<(Seq<char>, ConfV)>::empty(), secrets@) =~= Seq::<
                MsgV,
            >::empty());
            assert(skipped_confs(Seq::<(Seq<char>, ConfV)>::empty(), secrets@) =~= Seq::<
                Seq<char>,
            >::empty());
            assert(msg_views(queue@) + Seq::<MsgV>::empty() =~= msg_views(queue@));
            assert(skipped@.map_values(|s: String| s@) + Seq::<Seq<char>>::empty()
                =~= skipped@.map_values(|s: String| s@));
        }
        skipped
    }
}

/// Is this the name of a job-declaration file: a `.json` extension on a
/// non-empty file name?  Whether it names a regular file is the caller's
/// concern.
pub fn is_conffile(path: &str) -> (r: bool)
    ensures
        r == (path@.len() >= 6 && path@.subrange(path@.len() - 5, path@.len() as int)
            == ".json"@ && path@[path@.len() - 6] != '/'),
{
    let n = path.unicode_len();
    if n < 6 {
        return false;
    }
    let ext = path.substring_char(n - 5, n);
    if !str_eq(ext, ".json") {
        return false;
    }
    path.get_char(n - 6) != '/'
}

} // verus!
