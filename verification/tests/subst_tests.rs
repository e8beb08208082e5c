use rconfd::error::Error;
use rconfd::subst::{subst_envar, EnvMap, SubstIterator, Token};

#[test]
fn empty() {
    let tokens: Vec<_> = SubstIterator::new("").tokens();
    assert_eq!(tokens, vec![]);
}

#[test]
fn var() {
    let tokens: Vec<_> = SubstIterator::new("${TEST}").tokens();
    assert_eq!(tokens, vec![Token::Var("TEST".to_string())]);
}

#[test]
fn mixed() {
    let tokens: Vec<_> = SubstIterator::new("backend:${TEST}:path").tokens();
    assert_eq!(
        tokens,
        vec![
            Token::Str("backend:".to_string()),
            Token::Var("TEST".to_string()),
            Token::Str(":path".to_string())
        ]
    );
}

#[test]
fn error() {
    let tokens: Vec<_> = SubstIterator::new("${TEST").tokens();
    assert_eq!(tokens, vec![Token::BraceError]);
}

#[test]
fn subst_replaces_variables() {
    let mut env = EnvMap::new();
    env.push("TEST".to_string(), "value".to_string());
    assert_eq!(
        subst_envar("backend:${TEST}:path", &env).unwrap(),
        "backend:value:path"
    );
    assert_eq!(subst_envar("no vars here", &env).unwrap(), "no vars here");
    assert_eq!(subst_envar("${TEST}${TEST}", &env).unwrap(), "valuevalue");
}

#[test]
fn subst_errors() {
    let env = EnvMap::new();
    assert_eq!(
        subst_envar("${MISSING}", &env),
        Err(Error::UnknownVar("MISSING".to_string()))
    );
    assert_eq!(subst_envar("tail${OPEN", &env), Err(Error::RightBrace));
}

#[test]
fn subst_concatenation_equals_input() {
    // tokenization partitions the input: gluing the tokens' raw texts back
    // together gives the original string
    let input = "a${X}b${Y}c";
    let tokens = SubstIterator::new(input).tokens();
    let mut glued = String::new();
    for t in tokens {
        match t {
            Token::Str(c) => glued += &c,
            Token::Var(n) => {
                glued += "${";
                glued += &n;
                glued += "}";
            }
            Token::BraceError => panic!("unexpected brace error"),
        }
    }
    assert_eq!(glued, input);
}

#[test]
fn first_binding_wins() {
    let mut env = EnvMap::new();
    env.push("A".to_string(), "first".to_string());
    env.push("A".to_string(), "second".to_string());
    assert_eq!(subst_envar("${A}", &env).unwrap(), "first");
}
