use rconfd::broker::{env_secret, exe_secret, file_secret, plan_fetch, Broker, FetchPlan, Fmt};
use rconfd::conf::{Hooks, TemplateConf, TemplateConfs};
use rconfd::error::Error;
use rconfd::message::Message;
use rconfd::secret::Secret;
use rconfd::secrets::Secrets;
use rconfd::user::User;
use rconfd::value::{json_eq, Json};

fn plain_user() -> User {
    User { uid: 1000, gid: 1000 }
}

fn job(secrets: Vec<(&str, &str)>) -> TemplateConf {
    TemplateConf {
        dir: "/tmp/o".to_string(),
        mode: "0644".to_string(),
        user: String::new(),
        secrets: secrets
            .into_iter()
            .map(|(p, n)| (p.to_string(), n.to_string()))
            .collect(),
        hooks: Hooks { modified: None, ready: None },
    }
}

#[test]
fn plan_vault() {
    match plan_fetch("vault:role,put,cn=x:secret/app", &plain_user()).unwrap() {
        FetchPlan::Vault { role, method, path, kwargs } => {
            assert_eq!(role, "role");
            assert_eq!(method, "PUT");
            assert_eq!(path, "secret/app");
            assert_eq!(kwargs, Some(vec![("cn".to_string(), "x".to_string())]));
        }
        other => panic!("wrong plan: {:?}", other),
    }
    // the method defaults to GET
    match plan_fetch("vault:role:secret/app", &plain_user()).unwrap() {
        FetchPlan::Vault { method, .. } => assert_eq!(method, "GET"),
        other => panic!("wrong plan: {:?}", other),
    }
}

#[test]
fn plan_needs_a_positional_argument() {
    // a reference whose arguments are all keyword arguments names no role
    assert_eq!(
        plan_fetch("vault:k=v:secret/app", &plain_user()),
        Err(Error::MissingRole("vault:k=v:secret/app".to_string()))
    );
}

#[test]
fn plan_env_and_file() {
    match plan_fetch("env:js:FOO", &plain_user()).unwrap() {
        FetchPlan::Env { fmt, name } => {
            assert_eq!(fmt, Fmt::Js);
            assert_eq!(name, "FOO");
        }
        other => panic!("wrong plan: {:?}", other),
    }
    match plan_fetch("file:str:/tmp/in.txt", &plain_user()).unwrap() {
        FetchPlan::File { fmt, path } => {
            assert_eq!(fmt, Fmt::Str);
            assert_eq!(path, "/tmp/in.txt");
        }
        other => panic!("wrong plan: {:?}", other),
    }
    assert_eq!(
        plan_fetch("env:nope:FOO", &plain_user()),
        Err(Error::ExpectedArg(
            "\"str\" or \"js\"".to_string(),
            "env:nope:FOO".to_string()
        ))
    );
}

#[test]
fn plan_exe() {
    match plan_fetch("exe:str,dynamic:/bin/echo hello", &plain_user()).unwrap() {
        FetchPlan::Exe { fmt, dynamic, argv } => {
            assert_eq!(fmt, Fmt::Str);
            assert!(dynamic);
            assert_eq!(argv, vec!["/bin/echo".to_string(), "hello".to_string()]);
        }
        other => panic!("wrong plan: {:?}", other),
    }
    // running as root prepends the privilege drop
    let root = User { uid: 0, gid: 0 };
    match plan_fetch("exe:str:/bin/echo hello", &root).unwrap() {
        FetchPlan::Exe { argv, dynamic, .. } => {
            assert!(!dynamic);
            assert_eq!(
                argv,
                vec![
                    "/usr/bin/sudo".to_string(),
                    "-u".to_string(),
                    "nobody".to_string(),
                    "/bin/echo".to_string(),
                    "hello".to_string()
                ]
            );
        }
        other => panic!("wrong plan: {:?}", other),
    }
    // a relative program is a fatal error
    assert_eq!(
        plan_fetch("exe:str:echo hi", &plain_user()),
        Err(Error::RelativePath(
            "exe:str:echo hi".to_string(),
            "echo".to_string()
        ))
    );
    assert_eq!(
        plan_fetch("exe:str,maybe:/bin/echo", &plain_user()),
        Err(Error::ExpectedArg(
            "\"static\" or \"dynamic\"".to_string(),
            "exe:str,maybe:/bin/echo".to_string()
        ))
    );
}

#[test]
fn backend_secrets() {
    // env/str: the variable's text, an absent variable reads as empty
    let s = env_secret(Fmt::Str, "FOO", Some("bar".to_string()), 5).unwrap();
    assert!(json_eq(&s.value, &Json::Str("bar".to_string())));
    assert_eq!(s.lease_duration, None);
    let s = env_secret(Fmt::Str, "FOO", None, 5).unwrap();
    assert!(json_eq(&s.value, &Json::Str(String::new())));
    // env/js: an absent variable parses as the empty JSON string
    let s = env_secret(Fmt::Js, "FOO", None, 5).unwrap();
    assert!(json_eq(&s.value, &Json::Str(String::new())));
    assert!(matches!(
        env_secret(Fmt::Js, "FOO", Some("{oops".to_string()), 5),
        Err(Error::ParseError(_))
    ));
    // file/js
    let s = file_secret(Fmt::Js, "/tmp/in.json", "{\"a\":1}".to_string(), 7).unwrap();
    assert!(json_eq(
        &s.value,
        &Json::Obj(vec![("a".to_string(), Json::Num("1".to_string()))])
    ));
    // exe/str: trimmed stdout; dynamic means a zero-second lease
    let s = exe_secret(
        Fmt::Str,
        true,
        "/bin/echo hello",
        true,
        Some(0),
        "hello\n".to_string(),
        String::new(),
        9,
    )
    .unwrap();
    assert!(json_eq(&s.value, &Json::Str("hello".to_string())));
    assert_eq!(s.lease_duration, Some(0));
    assert!(s.has_lease());
    assert!(!s.is_valid(9));
    // a failing command is the command's error
    assert_eq!(
        exe_secret(
            Fmt::Str,
            false,
            "/bin/false",
            false,
            Some(3),
            String::new(),
            "boom".to_string(),
            9,
        ),
        Err(Error::CmdError("/bin/false".to_string(), 3, "boom".to_string()))
    );
}

#[test]
fn load_conf_enqueues_fetches() {
    let mut b = Broker::new(plain_user(), true);
    let mut q: Vec<Message> = Vec::new();
    b.load_conf(
        "t1.jsonnet",
        job(vec![("vault:role:secret/app", "app"), ("env:str:FOO", "foo")]),
        &mut q,
    )
    .unwrap();
    assert_eq!(
        q,
        vec![
            Message::Login("role".to_string()),
            Message::GetSecret("vault:role:secret/app".to_string(), false),
            Message::GetSecret("env:str:FOO".to_string(), false),
        ]
    );
    // both secrets now have placeholder slots
    assert_eq!(b.secrets.get("env:str:FOO"), Some(&None));
    // a second job sharing a secret does not fetch it again
    let mut q2: Vec<Message> = Vec::new();
    b.load_conf("t2.jsonnet", job(vec![("env:str:FOO", "foo")]), &mut q2)
        .unwrap();
    assert_eq!(q2, vec![]);
}

#[test]
fn load_conf_rejects_bad_keys() {
    let mut b = Broker::new(plain_user(), false);
    let mut q: Vec<Message> = Vec::new();
    let r = b.load_conf("t", job(vec![("nosuch:a:p", "x")]), &mut q);
    assert!(matches!(r, Err(Error::UnknownBackend(_))));
    assert!(q.is_empty());
}

#[test]
fn empty_secrets_generate_immediately() {
    let mut b = Broker::new(plain_user(), false);
    let mut q: Vec<Message> = Vec::new();
    b.load_conf("t1.jsonnet", job(vec![]), &mut q).unwrap();
    assert_eq!(
        q,
        vec![Message::GenerateTemplate("t1.jsonnet".to_string())]
    );
}

#[test]
fn startup_sweep_skips_missing() {
    let mut confs = TemplateConfs::new();
    confs.insert("ok.jsonnet".to_string(), job(vec![("env:str:A", "a")]));
    confs.insert("missing.jsonnet".to_string(), job(vec![("env:str:B", "b")]));
    let mut secrets = Secrets::new();
    secrets.insert_none("env:str:A".to_string());
    let mut q: Vec<Message> = Vec::new();
    let skipped = confs.generate_all_templates(&secrets, &mut q);
    assert_eq!(
        q,
        vec![Message::GenerateTemplate("ok.jsonnet".to_string())]
    );
    assert_eq!(skipped, vec!["missing.jsonnet".to_string()]);
}

#[test]
fn fetch_guard_and_renewal() {
    let mut b = Broker::new(plain_user(), true);
    let mut q: Vec<Message> = Vec::new();
    b.load_conf("t1.jsonnet", job(vec![("vault:role:secret/app", "app")]), &mut q)
        .unwrap();
    let path = "vault:role:secret/app";
    // placeholder slot: a fetch is needed
    assert!(b.fetch_needed(path, 1000));
    // a renewable 90 s lease schedules its refresh at 60 s
    let mut q2: Vec<Message> = Vec::new();
    let renew = b.store_secret(
        path,
        Secret::leased(Json::Str("v".to_string()), 90, true, 1000),
        false,
        1000,
        &mut q2,
    );
    assert_eq!(renew, Some(60));
    assert!(q2.is_empty(), "trigger_materialize was off");
    // fresh and not yet due: the fetch message is a no-op
    assert!(!b.fetch_needed(path, 1030));
    // due for renewal after two thirds of the lease
    assert!(b.fetch_needed(path, 1060));
    // an unchanged value triggers no regeneration even when asked to
    let mut q3: Vec<Message> = Vec::new();
    b.store_secret(
        path,
        Secret::leased(Json::Str("v".to_string()), 90, true, 1060),
        true,
        1060,
        &mut q3,
    );
    assert!(q3.is_empty(), "value unchanged");
    // a changed value regenerates the dependent job
    let mut q4: Vec<Message> = Vec::new();
    b.store_secret(
        path,
        Secret::leased(Json::Str("w".to_string()), 90, true, 1120),
        true,
        1120,
        &mut q4,
    );
    assert_eq!(
        q4,
        vec![Message::GenerateTemplate("t1.jsonnet".to_string())]
    );
}

#[test]
fn stale_dependents_are_refreshed_before_generation() {
    // a dynamic (zero-lease) secret is re-fetched before its job regenerates
    let mut b = Broker::new(plain_user(), true);
    let mut q: Vec<Message> = Vec::new();
    b.load_conf(
        "t.jsonnet",
        job(vec![("exe:str,dynamic:/bin/date", "d"), ("env:str:A", "a")]),
        &mut q,
    )
    .unwrap();
    b.store_secret(
        "exe:str,dynamic:/bin/date",
        Secret::new(Json::Str("x".to_string()), Some(0), 10),
        false,
        10,
        &mut Vec::new(),
    );
    let mut q2: Vec<Message> = Vec::new();
    b.store_secret(
        "env:str:A",
        Secret::new(Json::Str("v".to_string()), None, 11),
        true,
        11,
        &mut q2,
    );
    assert_eq!(
        q2,
        vec![
            Message::GetSecret("exe:str,dynamic:/bin/date".to_string(), false),
            Message::GenerateTemplate("t.jsonnet".to_string()),
        ]
    );
}

#[test]
fn bindings_expose_filled_secrets() {
    let mut b = Broker::new(plain_user(), false);
    let mut q: Vec<Message> = Vec::new();
    b.load_conf(
        "t.jsonnet",
        job(vec![("env:str:A", "a"), ("env:str:B", "b")]),
        &mut q,
    )
    .unwrap();
    b.store_secret(
        "env:str:A",
        Secret::new(Json::Str("va".to_string()), None, 0),
        false,
        0,
        &mut Vec::new(),
    );
    let bs = b.bindings("t.jsonnet").unwrap();
    assert_eq!(bs.len(), 1);
    assert_eq!(bs[0].0, "a");
    assert!(json_eq(&bs[0].1, &Json::Str("va".to_string())));
    assert!(b.bindings("unknown").is_none());
}

#[test]
fn one_pass_then_exit() {
    // non-daemon mode: the process exits after exactly one full pass
    let mut b = Broker::new(plain_user(), false);
    let mut q: Vec<Message> = Vec::new();
    b.load_conf("t1.jsonnet", job(vec![]), &mut q).unwrap();
    b.load_conf("t2.jsonnet", job(vec![]), &mut q).unwrap();
    let fin = b.finish_template(false);
    assert!(!fin.pass_complete);
    assert!(!fin.exit);
    let fin = b.finish_template(false);
    assert!(fin.pass_complete);
    assert!(fin.exit);
}

#[test]
fn daemon_mode_stays_only_with_leases() {
    // daemon mode with a leased secret: stay running
    let mut b = Broker::new(plain_user(), true);
    let mut q: Vec<Message> = Vec::new();
    b.load_conf("t.jsonnet", job(vec![("env:str:A", "a")]), &mut q)
        .unwrap();
    b.store_secret(
        "env:str:A",
        Secret::new(Json::Str("v".to_string()), Some(60), 0),
        false,
        0,
        &mut Vec::new(),
    );
    let fin = b.finish_template(false);
    assert!(fin.pass_complete);
    assert!(!fin.exit);
    // daemon mode without leases: nothing left to do, exit
    let mut b2 = Broker::new(plain_user(), true);
    let mut q2: Vec<Message> = Vec::new();
    b2.load_conf("t.jsonnet", job(vec![]), &mut q2).unwrap();
    let fin = b2.finish_template(false);
    assert!(fin.pass_complete);
    assert!(fin.exit);
}

#[test]
fn first_run_suppresses_modified_hook() {
    let mut b = Broker::new(plain_user(), false);
    let mut q: Vec<Message> = Vec::new();
    b.load_conf("t1.jsonnet", job(vec![]), &mut q).unwrap();
    b.load_conf("t2.jsonnet", job(vec![]), &mut q).unwrap();
    // first run: even changed content fires no modified hook
    let fin = b.finish_template(true);
    assert!(!fin.fire_modified);
    // a pre-existing output ends the first run before the pass completes
    b.note_existing(true);
    let fin = b.finish_template(true);
    assert!(fin.fire_modified);
    // after a completed pass the latch stays down
    let fin = b.finish_template(true);
    assert!(fin.fire_modified);
}
