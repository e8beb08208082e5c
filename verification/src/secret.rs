//! Parsed secret references and fetched secret values.

use vstd::prelude::*;

use crate::backend::{backend_name, Backend};
use crate::error::Error;
use crate::backend::{alpha_len, lemma_alpha_len};
use crate::parser::{
    kw_args, kwargs_opt, matches_fail, pos_args, secret_path, seg_of, seg_rest, splitargs,
    spec_args, spec_secret_path, spec_token, ArgV, ParseFailV,
};
use crate::text::{lemma_spec_find, spec_find};
use crate::value::{Json, JsonV};

verus! {

/// Model of a parsed secret reference.
pub struct SecretPathV {
    pub backend: Backend,
    pub args: Seq<Seq<char>>,
    pub kwargs: Option<Seq<(Seq<char>, Seq<char>)>>,
    pub path: Seq<char>,
    pub full: Seq<char>,
}

/// A parsed secret reference: `backend:args:path`, with the positional and
/// keyword arguments separated and the original text kept.
#[derive(Debug, PartialEq, Eq)]
pub struct SecretPath {
    pub backend: Backend,
    pub args: Vec<String>,
    pub kwargs: Option<Vec<(String, String)>>,
    pub path: String,
    pub full_repr: String,
}

impl View for SecretPath {
    type V = SecretPathV;

    open spec fn view(&self) -> SecretPathV {
        SecretPathV {
            backend: self.backend,
            args: self.args@.map_values(|s: String| s@),
            kwargs: match self.kwargs {
                Option::None => Option::None,
                Option::Some(kw) => Option::Some(
                    kw@.map_values(|p: (String, String)| (p.0@, p.1@)),
                ),
            },
            path: self.path@,
            full: self.full_repr@,
        }
    }
}

/// The full grammar: `spec_secret_path` followed by the trailing-data check
/// and the separation of positional from keyword arguments.
pub open spec fn spec_parse(s: Seq<char>) -> Result<SecretPathV, ParseFailV> {
    match spec_secret_path(s) {
        Result::Err(f) => Result::Err(f),
        Result::Ok(o) => {
            if o.0.len() > 0 {
                Result::Err(ParseFailV::Extra(o.0))
            } else {
                Result::Ok(
                    SecretPathV {
                        backend: o.1.0,
                        args: pos_args(o.1.1),
                        kwargs: kwargs_opt(o.1.1),
                        path: o.1.2,
                        full: s,
                    },
                )
            }
        },
    }
}

/// Does the reference parse?
pub open spec fn parses(s: Seq<char>) -> bool {
    spec_parse(s) is Ok
}

impl SecretPath {
    /// Parse a textual secret reference, rejecting trailing data.
    pub fn parse(input: &str) -> (r: Result<SecretPath, Error>)
        ensures
            match r {
                Ok(p) => spec_parse(input@) == Result::<SecretPathV, ParseFailV>::Ok(p@),
                Err(e) => spec_parse(input@) matches Result::Err(f) && matches_fail(e, f),
            },
    {
        match secret_path(input) {
            Err(e) => Err(e),
            Ok((rest, (b, args, path))) => {
                if !rest.as_str().is_empty() {
                    return Err(Error::ExtraData(rest));
                }
                let (pos, kw) = splitargs(args);
                Ok(
                    SecretPath {
                        backend: b,
                        args: pos,
                        kwargs: kw,
                        path,
                        full_repr: input.to_owned(),
                    },
                )
            },
        }
    }
}

/// `items` joined with `,` between them.
pub open spec fn join_comma(items: Seq<Seq<char>>) -> Seq<char>
    decreases items.len(),
{
    if items.len() == 0 {
        Seq::empty()
    } else if items.len() == 1 {
        items[0]
    } else {
        items[0] + ","@ + join_comma(items.skip(1))
    }
}

proof fn lemma_join_comma_snoc(items: Seq<Seq<char>>, x: Seq<char>)
    ensures
        join_comma(items.push(x)) == if items.len() == 0 {
            x
        } else {
            join_comma(items) + ","@ + x
        },
    decreases items.len(),
{
    if items.len() > 0 {
        lemma_join_comma_snoc(items.skip(1), x);
        assert(items.push(x)[0] == items[0]);
        assert(items.push(x).skip(1) =~= items.skip(1).push(x));
        if items.len() == 1 {
            assert(items.skip(1).len() == 0);
            assert(join_comma(items.push(x)) == items[0] + ","@ + x);
            assert(join_comma(items) == items[0]);
        } else {
            assert((items[0] + ","@ + (join_comma(items.skip(1)) + ","@ + x)) =~= (items[0]
                + ","@ + join_comma(items.skip(1)) + ","@ + x));
        }
    } else {
        assert(items.push(x).len() == 1);
        assert(items.push(x)[0] == x);
    }
}

/// `,k=v` for every keyword argument, in order.
pub open spec fn kw_suffix(kws: Seq<(Seq<char>, Seq<char>)>) -> Seq<char>
    decreases kws.len(),
{
    if kws.len() == 0 {
        Seq::empty()
    } else {
        ","@ + kws[0].0 + "="@ + kws[0].1 + kw_suffix(kws.skip(1))
    }
}

proof fn lemma_kw_suffix_snoc(kws: Seq<(Seq<char>, Seq<char>)>, p: (Seq<char>, Seq<char>))
    ensures
        kw_suffix(kws.push(p)) == kw_suffix(kws) + ","@ + p.0 + "="@ + p.1,
    decreases kws.len(),
{
    if kws.len() > 0 {
        lemma_kw_suffix_snoc(kws.skip(1), p);
        assert(kws.push(p)[0] == kws[0]);
        assert(kws.push(p).skip(1) =~= kws.skip(1).push(p));
        assert((","@ + kws[0].0 + "="@ + kws[0].1 + (kw_suffix(kws.skip(1)) + ","@ + p.0 + "="@
            + p.1)) =~= ((","@ + kws[0].0 + "="@ + kws[0].1 + kw_suffix(kws.skip(1))) + ","@
            + p.0 + "="@ + p.1));
    } else {
        assert(kws.push(p)[0] == p);
        assert(kws.push(p).skip(1) =~= kws);
        assert(","@ + p.0 + "="@ + p.1 + kw_suffix(Seq::empty()) =~= Seq::empty() + ","@ + p.0
            + "="@ + p.1);
    }
}

/// The canonical textual form: backend name, positional arguments joined
/// with commas, keyword arguments as `,k=v`, then the path.
pub open spec fn spec_repr(p: SecretPathV) -> Seq<char> {
    backend_name(p.backend) + ":"@ + join_comma(p.args) + (match p.kwargs {
        Option::None => Seq::<char>::empty(),
        Option::Some(k) => kw_suffix(k),
    }) + ":"@ + p.path
}

impl SecretPath {
    /// Serialize back to text; keyword arguments come after the positional
    /// ones, in their original order.
    pub fn to_string(&self) -> (r: String)
        ensures
            r@ == spec_repr(self@),
    {
        let mut out = self.backend.name().to_owned();
        out.append(":");
        let ghost argvs = self.args@.map_values(|s: String| s@);
        let mut i: usize = 0;
        while i < self.args.len()
            invariant
                i <= self.args@.len(),
                argvs == self.args@.map_values(|s: String| s@),
                out@ == backend_name(self.backend) + ":"@ + join_comma(argvs.take(i as int)),
            decreases self.args@.len() - i,
        {
            if i > 0 {
                out.append(",");
            }
            out.append(self.args[i].as_str());
            proof {
                lemma_join_comma_snoc(argvs.take(i as int), argvs[i as int]);
                assert(argvs.take(i + 1) =~= argvs.take(i as int).push(argvs[i as int]));
                if i > 0 {
                    assert(backend_name(self.backend) + ":"@ + join_comma(argvs.take(i as int))
                        + ","@ + self.args@[i as int]@ =~= backend_name(self.backend) + ":"@
                        + (join_comma(argvs.take(i as int)) + ","@ + argvs[i as int]));
                } else {
                    assert(backend_name(self.backend) + ":"@ + join_comma(
                        argvs.take(0),
                    ) =~= backend_name(self.backend) + ":"@);
                    assert(backend_name(self.backend) + ":"@ + self.args@[0].view()
                        =~= backend_name(self.backend) + ":"@ + argvs[0]);
                }
            }
            i += 1;
        }
        proof {
            assert(argvs.take(self.args@.len() as int) =~= argvs);
        }
        match &self.kwargs {
            Option::None => {},
            Option::Some(kws) => {
                let ghost kwvs = kws@.map_values(|p: (String, String)| (p.0@, p.1@));
                let ghost head = backend_name(self.backend) + ":"@ + join_comma(argvs);
                let mut j: usize = 0;
                proof {
                    assert(out@ + kw_suffix(kwvs.take(0)) =~= out@);
                }
                while j < kws.len()
                    invariant
                        j <= kws@.len(),
                        kwvs == kws@.map_values(|p: (String, String)| (p.0@, p.1@)),
                        head == backend_name(self.backend) + ":"@ + join_comma(argvs),
                        out@ == head + kw_suffix(kwvs.take(j as int)),
                    decreases kws@.len() - j,
                {
                    out.append(",");
                    out.append(kws[j].0.as_str());
                    out.append("=");
                    out.append(kws[j].1.as_str());
                    proof {
                        lemma_kw_suffix_snoc(kwvs.take(j as int), kwvs[j as int]);
                        assert(kwvs.take(j + 1) =~= kwvs.take(j as int).push(kwvs[j as int]));
                        assert(head + kw_suffix(kwvs.take(j as int)) + ","@ + kws@[j as int].0@
                            + "="@ + kws@[j as int].1@ =~= head + (kw_suffix(kwvs.take(j as int))
                            + ","@ + kwvs[j as int].0 + "="@ + kwvs[j as int].1));
                    }
                    j += 1;
                }
                proof {
                    assert(kwvs.take(kws@.len() as int) =~= kwvs);
                }
            },
        }
        out.append(":");
        out.append(self.path.as_str());
        proof {
            assert(spec_repr(self@) =~= out@);
        }
        out
    }
}

/// The source text of one parsed argument token.
pub open spec fn arg_text(a: ArgV) -> Seq<char> {
    match a {
        ArgV::Pos(t) => t,
        ArgV::Kw(k, v) => k + "="@ + v,
    }
}

/// Every token is a keyword argument.
pub open spec fn all_kw(toks: Seq<ArgV>) -> bool
    decreases toks.len(),
{
    toks.len() == 0 || (toks[0] is Kw && all_kw(toks.skip(1)))
}

/// The keyword arguments come after all the positional ones.
pub open spec fn pos_then_kw(toks: Seq<ArgV>) -> bool
    decreases toks.len(),
{
    if toks.len() == 0 {
        true
    } else {
        match toks[0] {
            ArgV::Pos(_t) => pos_then_kw(toks.skip(1)),
            ArgV::Kw(_k, _v) => all_kw(toks.skip(1)),
        }
    }
}

/// A well-formed token's text is the token itself.
proof fn lemma_token_text(t: Seq<char>)
    requires
        spec_token(t) is Some,
    ensures
        arg_text(spec_token(t)->Some_0) == t,
{
    reveal_strlit("=");
    lemma_spec_find(t, '=');
    match spec_find(t, '=') {
        Option::None => {},
        Option::Some(k) => {
            assert(("="@) =~= seq!['=']);
            assert(t.take(k) + "="@ + t.skip(k + 1) =~= t);
        },
    }
}

/// A parsed args segment is the comma-join of its tokens' texts.
proof fn lemma_args_join(seg: Seq<char>)
    requires
        spec_args(seg) is Some,
    ensures
        join_comma(
            spec_args(seg)->Some_0.map_values(|a: ArgV| arg_text(a)),
        ) == seg,
        spec_args(seg)->Some_0.len() >= 1,
    decreases seg.len(),
{
    reveal_strlit(",");
    lemma_spec_find(seg, ',');
    let toks = spec_args(seg)->Some_0;
    let texts = toks.map_values(|a: ArgV| arg_text(a));
    match spec_find(seg, ',') {
        Option::None => {
            let a = spec_token(seg)->Some_0;
            lemma_token_text(seg);
            assert(texts =~= seq![arg_text(a)]);
        },
        Option::Some(k) => {
            let a = spec_token(seg.take(k))->Some_0;
            let rest = spec_args(seg.skip(k + 1))->Some_0;
            lemma_token_text(seg.take(k));
            lemma_args_join(seg.skip(k + 1));
            let rtexts = rest.map_values(|x: ArgV| arg_text(x));
            assert(texts =~= seq![arg_text(a)] + rtexts);
            assert(texts.len() >= 2);
            assert(texts.skip(1) =~= rtexts);
            assert(join_comma(texts) == arg_text(a) + ","@ + join_comma(rtexts));
            assert((","@) =~= seq![',']);
            assert(seg.take(k) + ","@ + seg.skip(k + 1) =~= seg);
        },
    }
}

/// Over keyword-only tokens, the suffix form is a comma and the comma-join.
proof fn lemma_kw_join(toks: Seq<ArgV>)
    requires
        all_kw(toks),
        toks.len() >= 1,
    ensures
        kw_suffix(kw_args(toks)) == ","@ + join_comma(
            toks.map_values(|a: ArgV| arg_text(a)),
        ),
        pos_args(toks).len() == 0,
    decreases toks.len(),
{
    let texts = toks.map_values(|a: ArgV| arg_text(a));
    let rest = toks.skip(1);
    match toks[0] {
        ArgV::Pos(_t) => {},
        ArgV::Kw(k, v) => {
            if rest.len() == 0 {
                assert(kw_args(rest) =~= Seq::<(Seq<char>, Seq<char>)>::empty());
                assert(kw_args(toks) =~= seq![(k, v)]);
                assert(texts =~= seq![arg_text(toks[0])]);
                assert(seq![(k, v)].skip(1) =~= Seq::<(Seq<char>, Seq<char>)>::empty());
                assert(kw_suffix(Seq::<(Seq<char>, Seq<char>)>::empty()) == Seq::<char>::empty());
                assert(kw_suffix(seq![(k, v)]) =~= ","@ + k + "="@ + v);
                assert(kw_suffix(kw_args(toks)) =~= ","@ + k + "="@ + v);
                assert(","@ + join_comma(texts) =~= ","@ + (k + "="@ + v));
            } else {
                lemma_kw_join(rest);
                let rtexts = rest.map_values(|a: ArgV| arg_text(a));
                assert(texts =~= seq![arg_text(toks[0])] + rtexts);
                assert(texts.len() >= 2);
                assert(texts.skip(1) =~= rtexts);
                assert(join_comma(texts) == arg_text(toks[0]) + ","@ + join_comma(rtexts));
                assert(kw_args(toks) == seq![(k, v)] + kw_args(
                    rest,
                ));
                assert(kw_args(toks)[0] == (k, v));
                assert(kw_args(toks).skip(1) =~= kw_args(rest));
                assert(kw_suffix(kw_args(toks)) == ","@ + k + "="@ + v
                    + kw_suffix(kw_args(rest)));
                assert(","@ + k + "="@ + v + (","@ + join_comma(rtexts)) =~= ","@ + ((k + "="@
                    + v) + ","@ + join_comma(rtexts)));
            }
        },
    }
}

/// Over an ordered token list with at least one positional argument, the
/// printed arguments equal the comma-join of the original tokens.
proof fn lemma_sorted_join(toks: Seq<ArgV>)
    requires
        pos_then_kw(toks),
        pos_args(toks).len() >= 1,
    ensures
        join_comma(pos_args(toks)) + kw_suffix(kw_args(toks))
            == join_comma(toks.map_values(|a: ArgV| arg_text(a))),
    decreases toks.len(),
{
    let texts = toks.map_values(|a: ArgV| arg_text(a));
    let rest = toks.skip(1);
    let rtexts = rest.map_values(|a: ArgV| arg_text(a));
    assert(toks.len() >= 1) by {
        if toks.len() == 0 {
            assert(pos_args(toks).len() == 0);
        }
    }
    match toks[0] {
        ArgV::Pos(t) => {
            assert(texts =~= seq![t] + rtexts);
            if rest.len() == 0 {
                assert(pos_args(toks) =~= seq![t]);
                assert(kw_args(toks) =~= Seq::<(Seq<char>, Seq<char>)>::empty());
                assert(texts =~= seq![t]);
                assert(join_comma(seq![t]) + kw_suffix(Seq::empty()) =~= t);
            } else {
                assert(texts.len() >= 2);
                assert(texts.skip(1) =~= rtexts);
                match rest[0] {
                    ArgV::Pos(_u) => {
                        assert(pos_args(rest).len() >= 1);
                        lemma_sorted_join(rest);
                        let p = pos_args(rest);
                        assert(pos_args(toks) == seq![t] + p);
                        assert((seq![t] + p).len() >= 2);
                        assert((seq![t] + p)[0] == t);
                        assert((seq![t] + p).skip(1) =~= p);
                        assert(join_comma(seq![t] + p) == t + ","@ + join_comma(p));
                        assert(join_comma(texts) == t + ","@ + join_comma(rtexts));
                        assert(t + ","@ + (join_comma(p) + kw_suffix(kw_args(
                            rest,
                        ))) =~= (t + ","@ + join_comma(p)) + kw_suffix(kw_args(
                            rest,
                        )));
                        assert(kw_args(toks) == kw_args(rest));
                    },
                    ArgV::Kw(_k, _v) => {
                        assert(pos_then_kw(rest));
                        assert(all_kw(rest.skip(1)));
                        assert(all_kw(rest));
                        lemma_kw_join(rest);
                        assert(pos_args(rest).len() == 0);
                        assert(pos_args(toks) =~= seq![t]);
                        assert(join_comma(seq![t]) == t);
                        assert(join_comma(texts) == t + ","@ + join_comma(rtexts));
                        assert(kw_args(toks) == kw_args(rest));
                        assert(t + (","@ + join_comma(rtexts)) =~= t + ","@ + join_comma(
                            rtexts,
                        ));
                    },
                }
            }
        },
        ArgV::Kw(_k, _v) => {
            lemma_kw_join(toks);
        },
    }
}

/// Parsing a reference and printing it back gives the original text,
/// provided the backend token is written canonically (`vault`, not a longer
/// word with that prefix), at least one positional argument is present, and
/// every keyword argument comes after the positional ones.
pub proof fn lemma_parse_roundtrip(s: Seq<char>)
    requires
        parses(s),
        s.take(alpha_len(s) as int) == backend_name(
            spec_parse(s)->Ok_0.backend,
        ),
        spec_parse(s)->Ok_0.args.len() >= 1,
        pos_then_kw(spec_secret_path(s)->Ok_0.1.1),
    ensures
        spec_repr(spec_parse(s)->Ok_0) == s,
{
    reveal_strlit(":");
    let bl = alpha_len(s) as int;
    let o = spec_secret_path(s)->Ok_0;
    let b = o.1.0;
    let toks = o.1.1;
    let pseg = o.1.2;
    let rest1 = s.skip(bl);
    let rest2 = rest1.skip(1);
    let aseg = seg_of(rest2);
    let rest3 = seg_rest(rest2);
    let rest4 = rest3.skip(1);
    lemma_alpha_len(s);
    assert(spec_secret_path(s) is Ok);
    assert(bl > 0);
    assert(rest1.len() > 0 && rest1[0] == ':');
    assert(rest3.len() > 0);
    lemma_spec_find(rest2, ':');
    lemma_spec_find(rest4, ':');
    lemma_args_join(aseg);
    lemma_sorted_join(toks);
    let m = spec_parse(s)->Ok_0;
    // the argument segment prints back to itself
    assert(join_comma(m.args) + kw_suffix(kw_args(toks)) == aseg);
    assert((match m.kwargs {
        Option::None => Seq::<char>::empty(),
        Option::Some(k) => kw_suffix(k),
    }) == kw_suffix(kw_args(toks))) by {
        if kw_args(toks).len() == 0 {
            assert(kw_suffix(kw_args(toks)) =~= Seq::<char>::empty());
        }
    }
    // reassemble the input from its segments
    assert((":"@) =~= seq![':']);
    match spec_find(rest2, ':') {
        Option::None => {
            assert(rest3.len() == 0);
        },
        Option::Some(k) => {
            assert(rest3[0] == ':');
            assert(rest2 =~= aseg + rest3);
        },
    }
    match spec_find(rest4, ':') {
        Option::None => {
            assert(pseg == rest4);
        },
        Option::Some(k2) => {
            assert(seg_rest(rest4).len() > 0);
        },
    }
    assert(rest3 =~= seq![':'] + rest4);
    assert(rest1[0] == ':') by {
        lemma_alpha_len(s);
    }
    assert(rest1 =~= seq![':'] + rest2);
    assert(s =~= s.take(bl) + rest1);
    assert(spec_repr(m) =~= backend_name(b) + seq![':'] + aseg + seq![':'] + pseg);
    assert(s =~= backend_name(b) + seq![':'] + aseg + seq![':'] + pseg);
}

/// Model of a fetched secret.
pub struct SecretV {
    pub value: JsonV,
    pub lease_duration: Option<u64>,
    pub renewable: bool,
    pub fetched_at: u64,
}

/// A fetched secret value with its lease metadata.
///
/// Equality of secrets compares the value payload only; the lease fields
/// only drive scheduling.  A present lease of zero seconds marks a dynamic
/// secret that is stale as soon as it is fetched.
#[derive(Debug, PartialEq, Eq)]
pub struct Secret {
    pub value: Json,
    pub lease_duration: Option<u64>,
    pub renewable: bool,
    pub fetched_at: u64,
}

impl View for Secret {
    type V = SecretV;

    open spec fn view(&self) -> SecretV {
        SecretV {
            value: self.value@,
            lease_duration: self.lease_duration,
            renewable: self.renewable,
            fetched_at: self.fetched_at,
        }
    }
}

/// Seconds elapsed between a fetch stamp and `now`, zero when the clock
/// moved backwards.
pub open spec fn spec_elapsed(fetched_at: u64, now: u64) -> nat {
    if now >= fetched_at {
        (now - fetched_at) as nat
    } else {
        0
    }
}

/// Two thirds of a lease, the delay before renewal.
pub open spec fn two_thirds(d: u64) -> u64 {
    (2 * d / 3) as u64
}

impl SecretV {
    /// No lease, or the lease has not yet run out.
    pub open spec fn is_valid(self, now: u64) -> bool {
        match self.lease_duration {
            Option::None => true,
            Option::Some(d) => spec_elapsed(self.fetched_at, now) < d,
        }
    }

    /// The delay after which a renewable secret is fetched again.
    pub open spec fn renew_delay(self) -> Option<u64> {
        match self.lease_duration {
            Option::Some(d) => if self.renewable {
                Option::Some(two_thirds(d))
            } else {
                Option::None
            },
            Option::None => Option::None,
        }
    }

    /// Renewable, and at least two thirds of the lease has passed.
    pub open spec fn to_renew(self, now: u64) -> bool {
        match self.renew_delay() {
            Option::Some(d) => spec_elapsed(self.fetched_at, now) >= d,
            Option::None => false,
        }
    }

    pub open spec fn has_lease(self) -> bool {
        self.lease_duration is Some
    }
}

impl Secret {
    /// A non-renewable secret fetched now, with an optional lease.
    pub fn new(value: Json, lease_duration: Option<u64>, now: u64) -> (r: Secret)
        ensures
            r@ == (SecretV {
                value: value@,
                lease_duration,
                renewable: false,
                fetched_at: now,
            }),
    {
        Secret { value, lease_duration, renewable: false, fetched_at: now }
    }

    /// A secret fetched now from the authenticated service, with the lease
    /// metadata of the response.
    pub fn leased(value: Json, lease_duration: u64, renewable: bool, now: u64) -> (r: Secret)
        ensures
            r@ == (SecretV {
                value: value@,
                lease_duration: Option::Some(lease_duration),
                renewable,
                fetched_at: now,
            }),
    {
        Secret { value, lease_duration: Option::Some(lease_duration), renewable, fetched_at: now }
    }

    /// No lease, or the lease has not yet run out.
    pub fn is_valid(&self, now: u64) -> (r: bool)
        ensures
            r == self@.is_valid(now),
    {
        match self.lease_duration {
            Option::None => true,
            Option::Some(d) => {
                let elapsed = if now >= self.fetched_at {
                    now - self.fetched_at
                } else {
                    0
                };
                elapsed < d
            },
        }
    }

    /// The delay after which a renewable secret is fetched again.
    pub fn renew_delay(&self) -> (r: Option<u64>)
        ensures
            r == self@.renew_delay(),
    {
        match self.lease_duration {
            Option::Some(d) => {
                if self.renewable {
                    let dd = d as u128;
                    let t = dd * 2 / 3;
                    proof {
                        assert(t <= dd);
                        assert(dd * 2 == 2 * dd);
                    }
                    Option::Some(t as u64)
                } else {
                    Option::None
                }
            },
            Option::None => Option::None,
        }
    }

    /// Renewable, and at least two thirds of the lease has passed.
    pub fn to_renew(&self, now: u64) -> (r: bool)
        ensures
            r == self@.to_renew(now),
    {
        match self.renew_delay() {
            Option::Some(d) => {
                let elapsed = if now >= self.fetched_at {
                    now - self.fetched_at
                } else {
                    0
                };
                elapsed >= d
            },
            Option::None => false,
        }
    }

    /// Is a lease present at all, a zero-second one included?
    pub fn has_lease(&self) -> (r: bool)
        ensures
            r == self@.has_lease(),
    {
        match self.lease_duration {
            Option::Some(_d) => true,
            Option::None => false,
        }
    }
}

} // verus!
