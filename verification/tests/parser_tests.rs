use rconfd::backend::Backend;
use rconfd::error::Error;
use rconfd::parser::{arg1, backend, secret_path, splitargs, Arg};
use rconfd::secret::SecretPath;

#[test]
fn backend_parse() {
    assert_eq!(backend("vault:"), Ok((":".to_string(), Backend::Vault)));
}

#[test]
fn parse_args() {
    assert_eq!(
        arg1("test,role"),
        Ok((
            "".to_string(),
            vec![Arg::Arg("test".to_string()), Arg::Arg("role".to_string())]
        ))
    );
}

#[test]
fn parse_kwargs() {
    assert_eq!(
        arg1("role,cn=test"),
        Ok((
            "".to_string(),
            vec![
                Arg::Arg("role".to_string()),
                Arg::KwArg(("cn".to_string(), "test".to_string()))
            ]
        ))
    )
}

#[test]
fn secret_path_parse() {
    assert_eq!(
        secret_path("vault:arg1,arg2:comp1/comp2/comp3"),
        Ok((
            "".to_string(),
            (
                Backend::Vault,
                vec![Arg::Arg("arg1".to_string()), Arg::Arg("arg2".to_string())],
                "comp1/comp2/comp3".to_string()
            )
        ))
    );
}

#[test]
fn secret_path_kw_parse() {
    assert_eq!(
        secret_path("vault:arg1,arg2,cn=test:comp1/comp2/comp3"),
        Ok((
            "".to_string(),
            (
                Backend::Vault,
                vec![
                    Arg::Arg("arg1".to_string()),
                    Arg::Arg("arg2".to_string()),
                    Arg::KwArg(("cn".to_string(), "test".to_string()))
                ],
                "comp1/comp2/comp3".to_string()
            )
        ))
    );
}

#[test]
fn secret_path_serde() {
    assert_eq!(
        SecretPath::parse("vault:arg1,arg2,cn=test:comp1/comp2/comp3")
            .unwrap()
            .to_string(),
        "vault:arg1,arg2,cn=test:comp1/comp2/comp3"
    )
}

#[test]
fn backend_prefixes() {
    assert_eq!(backend("envy:x"), Ok((":x".to_string(), Backend::Env)));
    assert_eq!(backend("exec:x"), Ok((":x".to_string(), Backend::Exe)));
    assert_eq!(backend("filer:x"), Ok((":x".to_string(), Backend::File)));
    assert_eq!(
        backend("zebra:x"),
        Err(Error::UnknownBackend("zebra".to_string()))
    );
    assert_eq!(backend("9:x"), Err(Error::MissingBackend));
}

#[test]
fn parse_failures() {
    assert!(matches!(SecretPath::parse(""), Err(Error::MissingBackend)));
    assert!(matches!(
        SecretPath::parse("vault"),
        Err(Error::MissingArgs(_))
    ));
    assert!(matches!(
        SecretPath::parse("vault:"),
        Err(Error::MissingArgs(_))
    ));
    assert!(matches!(
        SecretPath::parse("vault:a"),
        Err(Error::MissingPath(_))
    ));
    assert!(matches!(
        SecretPath::parse("vault:a:"),
        Err(Error::MissingPath(_))
    ));
    assert_eq!(
        SecretPath::parse("vault:a:p:extra"),
        Err(Error::ExtraData(":extra".to_string()))
    );
    assert!(matches!(
        SecretPath::parse("nosuch:a:p"),
        Err(Error::UnknownBackend(_))
    ));
    assert!(matches!(
        SecretPath::parse("vault:a,,b:p"),
        Err(Error::MissingArgs(_))
    ));
}

#[test]
fn parse_fields() {
    let sp = SecretPath::parse("vault:role,get,cn=x:secret/data/app").unwrap();
    assert_eq!(sp.backend, Backend::Vault);
    assert_eq!(sp.args, vec!["role".to_string(), "get".to_string()]);
    assert_eq!(
        sp.kwargs,
        Some(vec![("cn".to_string(), "x".to_string())])
    );
    assert_eq!(sp.path, "secret/data/app");
    assert_eq!(sp.full_repr, "vault:role,get,cn=x:secret/data/app");
}

#[test]
fn kwargs_absent_not_empty() {
    let sp = SecretPath::parse("env:str:HOME").unwrap();
    assert_eq!(sp.kwargs, None);
    assert_eq!(sp.args, vec!["str".to_string()]);
}

#[test]
fn splitargs_order() {
    let (pos, kw) = splitargs(vec![
        Arg::Arg("a".to_string()),
        Arg::KwArg(("k".to_string(), "v".to_string())),
        Arg::Arg("b".to_string()),
    ]);
    assert_eq!(pos, vec!["a".to_string(), "b".to_string()]);
    assert_eq!(kw, Some(vec![("k".to_string(), "v".to_string())]));
}
