use rconfd::conf::{is_conffile, HookCommand, Hooks, HookType};
use rconfd::error::Error;
use rconfd::text::{ascii_upper, find_char, parse_octal, split_ws, str_eq, trim};

#[test]
fn octal_modes() {
    assert_eq!(parse_octal("0644"), Some(0o644));
    assert_eq!(parse_octal("0640"), Some(0o640));
    assert_eq!(parse_octal("777"), Some(0o777));
    assert_eq!(parse_octal("0"), Some(0));
    assert_eq!(parse_octal(""), None);
    assert_eq!(parse_octal("9"), None);
    assert_eq!(parse_octal("06x4"), None);
    // too large for u32
    assert_eq!(parse_octal("777777777777"), None);
}

#[test]
fn uppercasing() {
    assert_eq!(ascii_upper("get"), "GET");
    assert_eq!(ascii_upper("post"), "POST");
    assert_eq!(ascii_upper("List-9z"), "LIST-9Z");
    assert_eq!(ascii_upper(""), "");
}

#[test]
fn trimming() {
    assert_eq!(trim("  a b \t\n"), "a b");
    assert_eq!(trim("ab"), "ab");
    assert_eq!(trim(" \t "), "");
    assert_eq!(trim("hello\n"), "hello");
}

#[test]
fn whitespace_split() {
    assert_eq!(
        split_ws("/bin/echo  hello\tworld "),
        vec!["/bin/echo".to_string(), "hello".to_string(), "world".to_string()]
    );
    assert_eq!(split_ws("   "), Vec::<String>::new());
}

#[test]
fn char_finding() {
    assert_eq!(find_char("a:b", ':'), Some(1));
    assert_eq!(find_char("ab", ':'), None);
    assert!(str_eq("abc", "abc"));
    assert!(!str_eq("abc", "abd"));
}

#[test]
fn conffile_names() {
    assert!(is_conffile("/etc/rconfd/app.json"));
    assert!(is_conffile("a.json"));
    assert!(!is_conffile(".json"));
    assert!(!is_conffile("/etc/rconfd/.json"));
    assert!(!is_conffile("app.jsonnet"));
    assert!(!is_conffile("app.txt"));
}

#[test]
fn hook_plans() {
    let hooks = Hooks {
        modified: Some("/bin/reload -q now".to_string()),
        ready: Some("reload".to_string()),
    };
    assert_eq!(
        hooks.trigger_plan(HookType::MODIFIED),
        HookCommand::Exec(vec![
            "/bin/reload".to_string(),
            "-q".to_string(),
            "now".to_string()
        ])
    );
    // relative programs are refused, as for the exe backend
    assert_eq!(
        hooks.trigger_plan(HookType::READY),
        HookCommand::Rejected("reload".to_string())
    );
    let none = Hooks { modified: None, ready: Some("   ".to_string()) };
    assert_eq!(none.trigger_plan(HookType::MODIFIED), HookCommand::Absent);
    assert_eq!(none.trigger_plan(HookType::READY), HookCommand::Absent);
}

#[test]
fn error_messages() {
    assert_eq!(
        Error::UnknownBackend("zeb".to_string()).message(),
        "unknown backend \"zeb\""
    );
    assert_eq!(Error::RightBrace.message(), "no matching } found");
    assert_eq!(
        Error::RelativePath("exe:str:echo hi".to_string(), "echo".to_string()).message(),
        "in \"exe:str:echo hi\", command \"echo\" should be absolute and start with /"
    );
}
