//! Shell-like `${NAME}` interpolation inside configuration strings.

use vstd::prelude::*;

use crate::error::Error;
use crate::text::{find_char, lemma_spec_find, spec_find};

verus! {

/// One token of the substitution scan.
#[derive(Debug, PartialEq, Eq)]
pub enum Token {
    /// A `${NAME}` reference, holding the name.
    Var(String),
    /// A literal chunk.
    Str(String),
    /// A `${` with no matching `}`; consumes the rest of the input.
    BraceError,
}

/// Model of a token over character sequences.
pub enum TokV {
    Var(Seq<char>),
    Str(Seq<char>),
    BraceError,
}

impl View for Token {
    type V = TokV;

    open spec fn view(&self) -> TokV {
        match self {
            Token::Var(s) => TokV::Var(s@),
            Token::Str(s) => TokV::Str(s@),
            Token::BraceError => TokV::BraceError,
        }
    }
}

/// Index of the first `${` in `s`, if any.
pub open spec fn find_dollar(s: Seq<char>) -> Option<int>
    decreases s.len(),
{
    if s.len() < 2 {
        Option::None
    } else if s[0] == '$' && s[1] == '{' {
        Option::Some(0int)
    } else {
        match find_dollar(s.skip(1)) {
            Option::None => Option::None,
            Option::Some(i) => Option::Some(i + 1),
        }
    }
}

pub proof fn lemma_find_dollar(s: Seq<char>)
    ensures
        match find_dollar(s) {
            Option::Some(i) => 0 <= i <= s.len() - 2 && s[i] == '$' && s[i + 1] == '{' && (
            forall|j: int| 0 <= j < i ==> !((#[trigger] s[j]) == '$' && s[j + 1] == '{')),
            Option::None => forall|j: int|
                0 <= j <= s.len() - 2 ==> !((#[trigger] s[j]) == '$' && s[j + 1] == '{'),
        },
    decreases s.len(),
{
    if s.len() >= 2 && !(s[0] == '$' && s[1] == '{') {
        lemma_find_dollar(s.skip(1));
        match find_dollar(s.skip(1)) {
            Option::None => {
                assert forall|j: int| 0 <= j <= s.len() - 2 implies !((#[trigger] s[j]) == '$'
                    && s[j + 1] == '{') by {
                    if j >= 1 {
                        assert(s.skip(1)[j - 1] == s[j]);
                        assert(s.skip(1)[j] == s[j + 1]);
                    }
                }
            },
            Option::Some(i) => {
                assert(s.skip(1)[i] == s[i + 1]);
                assert(s.skip(1)[i + 1] == s[i + 2]);
                assert forall|j: int| 0 <= j < i + 1 implies !((#[trigger] s[j]) == '$'
                    && s[j + 1] == '{') by {
                    if j >= 1 {
                        assert(s.skip(1)[j - 1] == s[j]);
                        assert(s.skip(1)[j] == s[j + 1]);
                    }
                }
            },
        }
    }
}

/// First occurrence of `${` in `s`.
fn find_dollar_at(s: &str) -> (r: Option<usize>)
    ensures
        match r {
            Option::Some(i) => find_dollar(s@) == Option::Some(i as int),
            Option::None => find_dollar(s@) is None,
        },
{
    proof {
        lemma_find_dollar(s@);
    }
    let n = s.unicode_len();
    if n < 2 {
        return Option::None;
    }
    let mut i: usize = 0;
    while i + 1 < n
        invariant
            n == s@.len(),
            n >= 2,
            i <= n - 1,
            forall|j: int| 0 <= j < i ==> !((#[trigger] s@[j]) == '$' && s@[j + 1] == '{'),
            match find_dollar(s@) {
                Option::Some(k) => 0 <= k <= s@.len() - 2 && s@[k] == '$' && s@[k + 1] == '{'
                    && (forall|j: int| 0 <= j < k ==> !((#[trigger] s@[j]) == '$' && s@[j + 1] == '{')),
                Option::None => forall|j: int|
                    0 <= j <= s@.len() - 2 ==> !((#[trigger] s@[j]) == '$' && s@[j + 1] == '{'),
            },
        decreases n - i,
    {
        if s.get_char(i) == '$' && s.get_char(i + 1) == '{' {
            return Option::Some(i);
        }
        i += 1;
    }
    Option::None
}

/// The token stream of a left-to-right scan: literal chunks, `${NAME}`
/// references, and a final brace error when a `${` is never closed.
pub open spec fn spec_tokens(s: Seq<char>) -> Seq<TokV>
    decreases s.len(),
    via spec_tokens_dec
{
    if s.len() == 0 {
        Seq::empty()
    } else if s.len() >= 2 && s[0] == '$' && s[1] == '{' {
        match spec_find(s.skip(2), '}') {
            Option::None => seq![TokV::BraceError],
            Option::Some(j) => seq![TokV::Var(s.skip(2).take(j))] + spec_tokens(
                s.skip(2).skip(j + 1),
            ),
        }
    } else {
        match find_dollar(s) {
            Option::None => seq![TokV::Str(s)],
            Option::Some(k) => seq![TokV::Str(s.take(k))] + spec_tokens(s.skip(k)),
        }
    }
}

#[via_fn]
proof fn spec_tokens_dec(s: Seq<char>) {
    if s.len() >= 2 && s[0] == '$' && s[1] == '{' {
        lemma_spec_find(s.skip(2), '}');
    } else if s.len() > 0 {
        lemma_find_dollar(s);
        match find_dollar(s) {
            Option::Some(k) => {
                assert(k >= 1);
            },
            Option::None => {},
        }
    }
}

/// The views of a vector of tokens.
pub open spec fn token_views(v: Seq<Token>) -> Seq<TokV> {
    v.map_values(|t: Token| t@)
}

/// The scanner: holds the text not yet consumed.
pub struct SubstIterator {
    pub remainder: String,
}

impl View for SubstIterator {
    type V = Seq<char>;

    open spec fn view(&self) -> Seq<char> {
        self.remainder@
    }
}

impl SubstIterator {
    pub fn new(string: &str) -> (r: Self)
        ensures
            r@ == string@,
    {
        Self { remainder: string.to_owned() }
    }

    /// Yield everything left as one literal chunk.
    pub fn yield_remainder(&mut self) -> (r: Option<Token>)
        ensures
            final(self)@.len() == 0,
            (r matches Option::Some(t) && t@ == TokV::Str(old(self)@)),
    {
        let chunk = self.remainder.clone();
        self.remainder = String::new();
        Option::Some(Token::Str(chunk))
    }

    /// Consume a leading `${NAME}` and yield the reference, or everything
    /// when the closing `}` is missing.
    pub fn yield_var(&mut self) -> (r: Option<Token>)
        requires
            old(self)@.len() >= 2,
            old(self)@[0] == '$',
            old(self)@[1] == '{',
        ensures
            match spec_find(old(self)@.skip(2), '}') {
                Option::None => final(self)@.len() == 0 && (r matches Option::Some(t) && t@
                    == TokV::BraceError),
                Option::Some(j) => final(self)@ == old(self)@.skip(2).skip(j + 1) && (r matches
                    Option::Some(t) && t@ == TokV::Var(old(self)@.skip(2).take(j))),
            },
    {
        let ghost s = self.remainder@;
        proof {
            lemma_spec_find(s, '}');
            lemma_spec_find(s.skip(2), '}');
            match spec_find(s, '}') {
                Option::Some(e) => {
                    assert(e >= 2);
                    assert(s.skip(2)[e - 2] == s[e]);
                    assert forall|j: int| 0 <= j < e - 2 implies s.skip(2)[j] != '}' by {
                        assert(s.skip(2)[j] == s[j + 2]);
                    }
                    match spec_find(s.skip(2), '}') {
                        Option::Some(j2) => {
                            assert(s.skip(2)[j2] == '}');
                            assert(s[j2 + 2] == '}');
                            assert(j2 == e - 2);
                        },
                        Option::None => {
                            assert(s.skip(2)[e - 2] == '}');
                        },
                    }
                },
                Option::None => {
                    match spec_find(s.skip(2), '}') {
                        Option::Some(j2) => {
                            assert(s[j2 + 2] == s.skip(2)[j2]);
                        },
                        Option::None => {},
                    }
                },
            }
        }
        let n = self.remainder.as_str().unicode_len();
        match find_char(self.remainder.as_str(), '}') {
            Option::Some(end) => {
                let name = self.remainder.as_str().substring_char(2, end).to_owned();
                let rest = self.remainder.as_str().substring_char(end + 1, n).to_owned();
                proof {
                    assert(name@ =~= s.skip(2).take(end - 2));
                    assert(rest@ =~= s.skip(2).skip(end - 2 + 1));
                }
                self.remainder = rest;
                Option::Some(Token::Var(name))
            },
            Option::None => {
                self.remainder = String::new();
                Option::Some(Token::BraceError)
            },
        }
    }

    /// Yield the literal chunk of the first `end` characters.
    pub fn yield_str(&mut self, end: usize) -> (r: Option<Token>)
        requires
            end <= old(self)@.len(),
        ensures
            final(self)@ == old(self)@.skip(end as int),
            (r matches Option::Some(t) && t@ == TokV::Str(old(self)@.take(end as int))),
    {
        let n = self.remainder.as_str().unicode_len();
        let chunk = self.remainder.as_str().substring_char(0, end).to_owned();
        let rest = self.remainder.as_str().substring_char(end, n).to_owned();
        proof {
            assert(chunk@ =~= self.remainder@.take(end as int));
            assert(rest@ =~= self.remainder@.skip(end as int));
        }
        self.remainder = rest;
        Option::Some(Token::Str(chunk))
    }

    /// The next token, or `None` when the input is exhausted.  Each token
    /// yielded is the head of the remaining token stream.
    pub fn next(&mut self) -> (r: Option<Token>)
        ensures
            match r {
                Option::None => old(self)@.len() == 0 && final(self)@ == old(self)@,
                Option::Some(t) => spec_tokens(old(self)@).len() > 0 && t@ == spec_tokens(
                    old(self)@,
                )[0] && spec_tokens(final(self)@) == spec_tokens(old(self)@).skip(1)
                    && final(self)@.len() < old(self)@.len(),
            },
    {
        let ghost s = self.remainder@;
        let n = self.remainder.as_str().unicode_len();
        if n == 0 {
            return Option::None;
        }
        if n >= 2 && self.remainder.as_str().get_char(0) == '$' && self.remainder.as_str()
            .get_char(1) == '{' {
            proof {
                lemma_spec_find(s.skip(2), '}');
            }
            let r = self.yield_var();
            proof {
                match spec_find(s.skip(2), '}') {
                    Option::None => {
                        assert(spec_tokens(s) =~= seq![TokV::BraceError]);
                        assert(spec_tokens(self@) =~= Seq::<TokV>::empty());
                        assert(spec_tokens(s).skip(1) =~= Seq::<TokV>::empty());
                    },
                    Option::Some(j) => {
                        assert(spec_tokens(s) == seq![TokV::Var(s.skip(2).take(j))]
                            + spec_tokens(s.skip(2).skip(j + 1)));
                        assert(spec_tokens(s).skip(1) =~= spec_tokens(s.skip(2).skip(j + 1)));
                        assert(spec_tokens(s)[0] == TokV::Var(s.skip(2).take(j)));
                    },
                }
            }
            return r;
        }
        proof {
            lemma_find_dollar(s);
        }
        match find_dollar_at(self.remainder.as_str()) {
            Option::None => {
                let r = self.yield_remainder();
                proof {
                    assert(spec_tokens(s) =~= seq![TokV::Str(s)]);
                    assert(spec_tokens(self@) =~= Seq::<TokV>::empty());
                    assert(spec_tokens(s).skip(1) =~= Seq::<TokV>::empty());
                }
                r
            },
            Option::Some(end) => {
                proof {
                    assert(end >= 1);
                    assert(spec_tokens(s) == seq![TokV::Str(s.take(end as int))] + spec_tokens(
                        s.skip(end as int),
                    ));
                    assert(spec_tokens(s).skip(1) =~= spec_tokens(s.skip(end as int)));
                    assert(spec_tokens(s)[0] == TokV::Str(s.take(end as int)));
                }
                self.yield_str(end)
            },
        }
    }

    /// All tokens of the input, in order.
    pub fn tokens(&mut self) -> (r: Vec<Token>)
        ensures
            token_views(r@) == spec_tokens(old(self)@),
            final(self)@.len() == 0,
    {
        let ghost s = self.remainder@;
        proof {
            assert(s == old(self)@);
        }
        let mut out: Vec<Token> = Vec::new();
        proof {
            assert(token_views(out@) =~= Seq::<TokV>::empty());
            assert(token_views(out@) + spec_tokens(s) =~= spec_tokens(s));
        }
        loop
            invariant
                s == old(self)@,
                spec_tokens(s) == token_views(out@) + spec_tokens(self@),
            decreases self@.len(),
        {
            let ghost rem = self@;
            match self.next() {
                Option::None => {
                    proof {
                        assert(spec_tokens(rem) =~= Seq::<TokV>::empty());
                        assert(token_views(out@) + Seq::<TokV>::empty() =~= token_views(out@));
                    }
                    return out;
                },
                Option::Some(t) => {
                    proof {
                        assert(token_views(out@.push(t)) =~= token_views(out@) + seq![t@]);
                        assert(seq![spec_tokens(rem)[0]] + spec_tokens(rem).skip(1)
                            =~= spec_tokens(rem));
                        assert((token_views(out@) + seq![t@]) + spec_tokens(rem).skip(1)
                            =~= token_views(out@) + (seq![t@] + spec_tokens(rem).skip(1)));
                    }
                    out.push(t);
                },
            }
        }
    }
}

/// A snapshot of the process environment: name/value pairs, first match
/// wins.
pub struct EnvMap {
    pub vars: Vec<(String, String)>,
}

impl View for EnvMap {
    type V = Seq<(Seq<char>, Seq<char>)>;

    open spec fn view(&self) -> Seq<(Seq<char>, Seq<char>)> {
        self.vars@.map_values(|p: (String, String)| (p.0@, p.1@))
    }
}

/// The value bound to `name`, if any.
pub open spec fn spec_lookup(env: Seq<(Seq<char>, Seq<char>)>, name: Seq<char>) -> Option<
    Seq<char>,
>
    decreases env.len(),
{
    if env.len() == 0 {
        Option::None
    } else if env[0].0 == name {
        Option::Some(env[0].1)
    } else {
        spec_lookup(env.skip(1), name)
    }
}

impl EnvMap {
    pub fn new() -> (r: Self)
        ensures
            r@.len() == 0,
    {
        EnvMap { vars: Vec::new() }
    }

    pub fn push(&mut self, name: String, value: String) -> (nothing: ())
        ensures
            final(self)@ == old(self)@.push((name@, value@)),
    {
        let ghost pre = self.vars@;
        self.vars.push((name, value));
        proof {
            assert(self.vars@.map_values(|p: (String, String)| (p.0@, p.1@)) =~= pre.map_values(
                |p: (String, String)| (p.0@, p.1@),
            ).push((self.vars@.last().0@, self.vars@.last().1@)));
        }
    }

    /// Look a name up; the first binding wins.
    pub fn get(&self, name: &str) -> (r: Option<String>)
        ensures
            match r {
                Option::Some(v) => spec_lookup(self@, name@) == Option::Some(v@),
                Option::None => spec_lookup(self@, name@) is None,
            },
    {
        let mut i: usize = 0;
        proof {
            assert(self@.skip(0) =~= self@);
        }
        while i < self.vars.len()
            invariant
                i <= self.vars@.len(),
                self@.len() == self.vars@.len(),
                forall|j: int| 0 <= j < self.vars@.len() ==> #[trigger] self@[j]
                    == (self.vars@[j].0@, self.vars@[j].1@),
                spec_lookup(self@, name@) == spec_lookup(self@.skip(i as int), name@),
            decreases self.vars@.len() - i,
        {
            proof {
                assert(self@.skip(i as int)[0] == self@[i as int]);
                assert(self@.skip(i as int).skip(1) =~= self@.skip(i + 1));
            }
            if crate::text::str_eq(self.vars[i].0.as_str(), name) {
                return Option::Some(self.vars[i].1.clone());
            }
            i += 1;
        }
        proof {
            assert(self@.skip(self.vars@.len() as int) =~= Seq::<(Seq<char>, Seq<char>)>::empty());
        }
        Option::None
    }
}

/// Is this token the one that stops a substitution: an unclosed brace, or a
/// reference to a name the environment does not bind?
pub open spec fn tok_bad(t: TokV, env: Seq<(Seq<char>, Seq<char>)>) -> bool {
    match t {
        TokV::Str(_c) => false,
        TokV::Var(n) => spec_lookup(env, n) is None,
        TokV::BraceError => true,
    }
}

/// The first token that stops a substitution, if any.
pub open spec fn first_bad(toks: Seq<TokV>, env: Seq<(Seq<char>, Seq<char>)>) -> Option<TokV>
    decreases toks.len(),
{
    if toks.len() == 0 {
        Option::None
    } else if tok_bad(toks[0], env) {
        Option::Some(toks[0])
    } else {
        first_bad(toks.skip(1), env)
    }
}

/// What a token contributes to the substituted output.
pub open spec fn tok_sub(t: TokV, env: Seq<(Seq<char>, Seq<char>)>) -> Seq<char> {
    match t {
        TokV::Str(c) => c,
        TokV::Var(n) => match spec_lookup(env, n) {
            Option::Some(v) => v,
            Option::None => Seq::empty(),
        },
        TokV::BraceError => Seq::empty(),
    }
}

/// The substituted output of a token stream.
pub open spec fn spec_subst(toks: Seq<TokV>, env: Seq<(Seq<char>, Seq<char>)>) -> Seq<char>
    decreases toks.len(),
{
    if toks.len() == 0 {
        Seq::empty()
    } else {
        tok_sub(toks[0], env) + spec_subst(toks.skip(1), env)
    }
}

proof fn lemma_first_bad_concat(a: Seq<TokV>, b: Seq<TokV>, env: Seq<(Seq<char>, Seq<char>)>)
    ensures
        first_bad(a + b, env) == if first_bad(a, env) is Some {
            first_bad(a, env)
        } else {
            first_bad(b, env)
        },
    decreases a.len(),
{
    if a.len() == 0 {
        assert(a + b =~= b);
    } else {
        lemma_first_bad_concat(a.skip(1), b, env);
        assert((a + b)[0] == a[0]);
        assert((a + b).skip(1) =~= a.skip(1) + b);
    }
}

proof fn lemma_subst_concat(a: Seq<TokV>, b: Seq<TokV>, env: Seq<(Seq<char>, Seq<char>)>)
    ensures
        spec_subst(a + b, env) == spec_subst(a, env) + spec_subst(b, env),
    decreases a.len(),
{
    if a.len() == 0 {
        assert(a + b =~= b);
        assert(spec_subst(a, env) + spec_subst(b, env) =~= spec_subst(b, env));
    } else {
        lemma_subst_concat(a.skip(1), b, env);
        assert((a + b)[0] == a[0]);
        assert((a + b).skip(1) =~= a.skip(1) + b);
        assert(tok_sub(a[0], env) + (spec_subst(a.skip(1), env) + spec_subst(b, env)) =~= (
        tok_sub(a[0], env) + spec_subst(a.skip(1), env)) + spec_subst(b, env));
    }
}

/// Expand every `${NAME}` in `s` against `env`.  Fails on the first
/// reference to an unbound name, or on an unclosed `${`.
pub fn subst_envar(s: &str, env: &EnvMap) -> (r: Result<String, Error>)
    ensures
        match r {
            Ok(out) => first_bad(spec_tokens(s@), env@) is None && out@ == spec_subst(
                spec_tokens(s@),
                env@,
            ),
            Err(e) => match first_bad(spec_tokens(s@), env@) {
                Option::Some(TokV::Var(n)) => (e matches Error::UnknownVar(m) && m@ == n),
                Option::Some(TokV::BraceError) => e matches Error::RightBrace,
                _ => false,
            },
        },
{
    let ghost tv = spec_tokens(s@);
    let mut it = SubstIterator::new(s);
    let mut out = String::new();
    let ghost mut done: Seq<TokV> = Seq::empty();
    proof {
        assert(done + tv =~= tv);
    }
    loop
        invariant
            tv == spec_tokens(s@),
            tv == done + spec_tokens(it@),
            first_bad(done, env@) is None,
            out@ == spec_subst(done, env@),
        decreases it@.len(),
    {
        let ghost rem_toks = spec_tokens(it@);
        match it.next() {
            Option::None => {
                proof {
                    assert(spec_tokens(it@) =~= Seq::<TokV>::empty());
                    assert(done + Seq::<TokV>::empty() =~= done);
                }
                return Ok(out);
            },
            Option::Some(t) => {
                proof {
                    assert(rem_toks[0] == t@);
                    assert(seq![t@] + rem_toks.skip(1) =~= rem_toks);
                    assert(done.push(t@) =~= done + seq![t@]);
                    assert((done + seq![t@]) + rem_toks.skip(1) =~= done + rem_toks);
                    lemma_first_bad_concat(done, seq![t@], env@);
                    lemma_subst_concat(done, seq![t@], env@);
                    assert(seq![t@].skip(1) =~= Seq::<TokV>::empty());
                    assert(seq![t@][0] == t@);
                    assert(first_bad(Seq::<TokV>::empty(), env@) is None);
                    assert(spec_subst(Seq::<TokV>::empty(), env@) == Seq::<char>::empty());
                    assert(first_bad(seq![t@], env@) == if tok_bad(t@, env@) {
                        Option::Some(t@)
                    } else {
                        Option::<TokV>::None
                    });
                    assert(spec_subst(seq![t@], env@) =~= tok_sub(t@, env@));
                }
                match t {
                    Token::Str(chunk) => {
                        out.append(chunk.as_str());
                        proof {
                            done = done.push(TokV::Str(chunk@));
                        }
                    },
                    Token::Var(name) => {
                        match env.get(name.as_str()) {
                            Option::Some(v) => {
                                out.append(v.as_str());
                                proof {
                                    done = done.push(TokV::Var(name@));
                                }
                            },
                            Option::None => {
                                proof {
                                    lemma_first_bad_concat(done, rem_toks, env@);
                                    assert(first_bad(rem_toks, env@) == Option::Some(t@));
                                }
                                return Err(Error::UnknownVar(name));
                            },
                        }
                    },
                    Token::BraceError => {
                        proof {
                            lemma_first_bad_concat(done, rem_toks, env@);
                            assert(first_bad(rem_toks, env@) == Option::Some(t@));
                        }
                        return Err(Error::RightBrace);
                    },
                }
            },
        }
    }
}

/// The raw source text a token stands for.
pub open spec fn raw_text(t: TokV) -> Seq<char> {
    match t {
        TokV::Str(c) => c,
        TokV::Var(n) => "${"@ + n + "}"@,
        TokV::BraceError => Seq::empty(),
    }
}

/// The concatenation of the tokens' raw texts.
pub open spec fn concat_raw(toks: Seq<TokV>) -> Seq<char>
    decreases toks.len(),
{
    if toks.len() == 0 {
        Seq::empty()
    } else {
        raw_text(toks[0]) + concat_raw(toks.skip(1))
    }
}

/// Tokenization partitions its input: as long as every `${` is closed, the
/// concatenation of the tokens' raw texts is the input itself.
pub proof fn lemma_tokens_concat(s: Seq<char>)
    requires
        !spec_tokens(s).contains(TokV::BraceError),
    ensures
        concat_raw(spec_tokens(s)) == s,
    decreases s.len(),
{
    reveal_strlit("${");
    reveal_strlit("}");
    if s.len() == 0 {
    } else if s.len() >= 2 && s[0] == '$' && s[1] == '{' {
        lemma_spec_find(s.skip(2), '}');
        match spec_find(s.skip(2), '}') {
            Option::None => {
                assert(spec_tokens(s)[0] == TokV::BraceError);
                assert(spec_tokens(s).contains(TokV::BraceError));
            },
            Option::Some(j) => {
                let name = s.skip(2).take(j);
                let rest = s.skip(2).skip(j + 1);
                let toks = spec_tokens(s);
                assert(toks == seq![TokV::Var(name)] + spec_tokens(rest));
                assert forall|i: int| 0 <= i < spec_tokens(rest).len() implies spec_tokens(
                    rest,
                )[i] != TokV::BraceError by {
                    assert(toks[i + 1] == spec_tokens(rest)[i]);
                    if spec_tokens(rest)[i] == TokV::BraceError {
                        assert(toks.contains(TokV::BraceError));
                    }
                }
                lemma_tokens_concat(rest);
                assert(toks.skip(1) =~= spec_tokens(rest));
                assert(concat_raw(toks) == raw_text(TokV::Var(name)) + concat_raw(
                    spec_tokens(rest),
                ));
                assert(("${"@) =~= seq!['$', '{']);
                assert(("}"@) =~= seq!['}']);
                assert(s.skip(2)[j] == '}');
                assert(s[0] == '$' && s[1] == '{');
                assert(s =~= seq!['$', '{'] + name + seq!['}'] + rest);
                assert((seq!['$', '{'] + name + seq!['}']) + rest =~= (seq!['$', '{'] + name
                    + seq!['}'] + rest));
            },
        }
    } else {
        lemma_find_dollar(s);
        match find_dollar(s) {
            Option::None => {
                assert(spec_tokens(s) == seq![TokV::Str(s)]);
                assert(spec_tokens(s).skip(1) =~= Seq::<TokV>::empty());
                assert(concat_raw(Seq::<TokV>::empty()) == Seq::<char>::empty());
                assert(concat_raw(spec_tokens(s)) == raw_text(spec_tokens(s)[0]) + concat_raw(
                    Seq::<TokV>::empty(),
                ));
                assert(s + Seq::<char>::empty() =~= s);
            },
            Option::Some(k) => {
                let chunk = s.take(k);
                let rest = s.skip(k);
                let toks = spec_tokens(s);
                assert(toks == seq![TokV::Str(chunk)] + spec_tokens(rest));
                assert forall|i: int| 0 <= i < spec_tokens(rest).len() implies spec_tokens(
                    rest,
                )[i] != TokV::BraceError by {
                    assert(toks[i + 1] == spec_tokens(rest)[i]);
                    if spec_tokens(rest)[i] == TokV::BraceError {
                        assert(toks.contains(TokV::BraceError));
                    }
                }
                lemma_tokens_concat(rest);
                assert(toks.skip(1) =~= spec_tokens(rest));
                assert(concat_raw(toks) == chunk + concat_raw(spec_tokens(rest)));
                assert(chunk + rest =~= s);
            },
        }
    }
}

} // verus!
