//! The secret-path grammar: `backend:arg1,arg2,k=v,…:path`.

use vstd::prelude::*;

use crate::backend::{alpha_len, lemma_alpha_len, spec_backend_of, Backend};
use crate::error::Error;
use crate::text::{find_char, lemma_spec_find, spec_find};

verus! {

/// A positional or keyword argument of a secret path.
#[derive(Debug, PartialEq, Eq)]
pub enum Arg {
    Arg(String),
    KwArg((String, String)),
}

/// Model of an argument over character sequences.
pub enum ArgV {
    Pos(Seq<char>),
    Kw(Seq<char>, Seq<char>),
}

impl View for Arg {
    type V = ArgV;

    open spec fn view(&self) -> ArgV {
        match self {
            Arg::Arg(s) => ArgV::Pos(s@),
            Arg::KwArg(kv) => ArgV::Kw(kv.0@, kv.1@),
        }
    }
}

/// A parse failure, over character sequences.
pub enum ParseFailV {
    Backend,
    Args(Seq<char>),
    Path(Seq<char>),
    Extra(Seq<char>),
    Unknown(Seq<char>),
}

/// Does the exec error render the spec-level failure?
pub open spec fn matches_fail(e: Error, f: ParseFailV) -> bool {
    match (e, f) {
        (Error::MissingBackend, ParseFailV::Backend) => true,
        (Error::MissingArgs(t), ParseFailV::Args(s)) => t@ == s,
        (Error::MissingPath(t), ParseFailV::Path(s)) => t@ == s,
        (Error::ExtraData(t), ParseFailV::Extra(s)) => t@ == s,
        (Error::UnknownBackend(t), ParseFailV::Unknown(s)) => t@ == s,
        _ => false,
    }
}

/// One grammar token: a non-empty literal without `=`, or `key=value` with
/// non-empty halves.
pub open spec fn spec_token(t: Seq<char>) -> Option<ArgV> {
    match spec_find(t, '=') {
        Option::None => if t.len() > 0 {
            Option::Some(ArgV::Pos(t))
        } else {
            Option::None
        },
        Option::Some(k) => {
            let val = t.skip(k + 1);
            if k > 0 && val.len() > 0 && spec_find(val, '=') is None {
                Option::Some(ArgV::Kw(t.take(k), val))
            } else {
                Option::None
            }
        },
    }
}

/// The comma-separated token list of an args segment, or `None` when the
/// segment is empty or some token is malformed.
pub open spec fn spec_args(seg: Seq<char>) -> Option<Seq<ArgV>>
    decreases seg.len(),
    via spec_args_dec
{
    match spec_find(seg, ',') {
        Option::None => match spec_token(seg) {
            Option::None => Option::None,
            Option::Some(a) => Option::Some(seq![a]),
        },
        Option::Some(k) => {
            match (spec_token(seg.take(k)), spec_args(seg.skip(k + 1))) {
                (Option::Some(a), Option::Some(rest)) => Option::Some(seq![a] + rest),
                _ => Option::None,
            }
        },
    }
}

#[via_fn]
proof fn spec_args_dec(seg: Seq<char>) {
    lemma_spec_find(seg, ',');
}

/// The positional arguments of a token list, in order.
pub open spec fn pos_args(toks: Seq<ArgV>) -> Seq<Seq<char>>
    decreases toks.len(),
{
    if toks.len() == 0 {
        Seq::empty()
    } else {
        match toks[0] {
            ArgV::Pos(t) => seq![t] + pos_args(toks.skip(1)),
            ArgV::Kw(_k, _v) => pos_args(toks.skip(1)),
        }
    }
}

/// The keyword arguments of a token list, in order.
pub open spec fn kw_args(toks: Seq<ArgV>) -> Seq<(Seq<char>, Seq<char>)>
    decreases toks.len(),
{
    if toks.len() == 0 {
        Seq::empty()
    } else {
        match toks[0] {
            ArgV::Pos(_t) => kw_args(toks.skip(1)),
            ArgV::Kw(k, v) => seq![(k, v)] + kw_args(toks.skip(1)),
        }
    }
}

/// The keyword arguments, or `None` when there are none at all.
pub open spec fn kwargs_opt(toks: Seq<ArgV>) -> Option<Seq<(Seq<char>, Seq<char>)>> {
    if kw_args(toks).len() == 0 {
        Option::None
    } else {
        Option::Some(kw_args(toks))
    }
}

/// The part of `s` before its first `:`, or all of `s`.
pub open spec fn seg_of(s: Seq<char>) -> Seq<char> {
    match spec_find(s, ':') {
        Option::None => s,
        Option::Some(k) => s.take(k),
    }
}

/// The part of `s` from its first `:` on, or empty.
pub open spec fn seg_rest(s: Seq<char>) -> Seq<char> {
    match spec_find(s, ':') {
        Option::None => Seq::empty(),
        Option::Some(k) => s.skip(k),
    }
}

/// The whole grammar, without the trailing-data check: on success, the
/// unconsumed remainder together with backend, token list and path segment.
pub open spec fn spec_secret_path(s: Seq<char>) -> Result<
    (Seq<char>, (Backend, Seq<ArgV>, Seq<char>)),
    ParseFailV,
> {
    let bl = alpha_len(s) as int;
    if bl == 0 {
        Result::Err(ParseFailV::Backend)
    } else {
        let tok = s.take(bl);
        match spec_backend_of(tok) {
            Option::None => Result::Err(ParseFailV::Unknown(tok)),
            Option::Some(b) => {
                let rest1 = s.skip(bl);
                if rest1.len() == 0 || rest1[0] != ':' {
                    Result::Err(ParseFailV::Args(rest1))
                } else {
                    let rest2 = rest1.skip(1);
                    let aseg = seg_of(rest2);
                    match spec_args(aseg) {
                        Option::None => Result::Err(ParseFailV::Args(aseg)),
                        Option::Some(toks) => {
                            let rest3 = seg_rest(rest2);
                            if rest3.len() == 0 {
                                Result::Err(ParseFailV::Path(Seq::empty()))
                            } else {
                                let rest4 = rest3.skip(1);
                                let pseg = seg_of(rest4);
                                if pseg.len() == 0 {
                                    Result::Err(ParseFailV::Path(rest4))
                                } else {
                                    Result::Ok((seg_rest(rest4), (b, toks, pseg)))
                                }
                            }
                        },
                    }
                }
            },
        }
    }
}

/// Parse the leading backend token; the remainder starts at the first
/// non-alphabetic character.
pub fn backend(input: &str) -> (r: Result<(String, Backend), Error>)
    ensures
        match r {
            Ok(p) => alpha_len(input@) > 0 && spec_backend_of(
                input@.take(alpha_len(input@) as int),
            ) == Option::Some(p.1) && p.0@ == input@.skip(alpha_len(input@) as int),
            Err(e) => match e {
                Error::MissingBackend => alpha_len(input@) == 0,
                Error::UnknownBackend(t) => alpha_len(input@) > 0 && t@ == input@.take(
                    alpha_len(input@) as int,
                ) && spec_backend_of(t@) is None,
                _ => false,
            },
        },
{
    proof {
        lemma_alpha_len(input@);
    }
    let n = input.unicode_len();
    let mut bl: usize = 0;
    while bl < n && crate::text::alpha_char(input.get_char(bl))
        invariant
            n == input@.len(),
            bl <= n,
            forall|j: int| 0 <= j < bl ==> crate::text::is_alpha(input@[j]),
            alpha_len(input@) <= input@.len(),
            forall|j: int| 0 <= j < alpha_len(input@) ==> crate::text::is_alpha(input@[j]),
            alpha_len(input@) < input@.len() ==> !crate::text::is_alpha(
                input@[alpha_len(input@) as int],
            ),
        decreases n - bl,
    {
        bl += 1;
    }
    proof {
        assert(alpha_len(input@) == bl);
    }
    if bl == 0 {
        return Err(Error::MissingBackend);
    }
    let tok = input.substring_char(0, bl);
    proof {
        assert(tok@ =~= input@.take(bl as int));
    }
    match Backend::from_token(tok) {
        Err(e) => Err(e),
        Ok(b) => {
            let rest = input.substring_char(bl, n).to_owned();
            proof {
                assert(rest@ =~= input@.skip(bl as int));
            }
            Ok((rest, b))
        },
    }
}

/// One token, or `None` when empty or malformed.
fn parse_token(t: &str) -> (r: Option<Arg>)
    ensures
        match r {
            Option::Some(a) => spec_token(t@) == Option::Some(a@),
            Option::None => spec_token(t@) is None,
        },
{
    let n = t.unicode_len();
    proof {
        lemma_spec_find(t@, '=');
    }
    match find_char(t, '=') {
        Option::None => {
            if n > 0 {
                Option::Some(Arg::Arg(t.to_owned()))
            } else {
                Option::None
            }
        },
        Option::Some(k) => {
            if k == 0 {
                return Option::None;
            }
            let val = t.substring_char(k + 1, n);
            proof {
                assert(val@ =~= t@.skip(k + 1));
            }
            if val.unicode_len() == 0 {
                return Option::None;
            }
            match find_char(val, '=') {
                Option::Some(_) => Option::None,
                Option::None => {
                    let key = t.substring_char(0, k);
                    proof {
                        assert(key@ =~= t@.take(k as int));
                    }
                    Option::Some(Arg::KwArg((key.to_owned(), val.to_owned())))
                },
            }
        },
    }
}

/// The token list of a whole args segment.
fn parse_tokens(seg: &str) -> (r: Result<Vec<Arg>, Error>)
    ensures
        match r {
            Ok(v) => spec_args(seg@) == Option::Some(v@.map_values(|a: Arg| a@)),
            Err(e) => spec_args(seg@) is None && (e matches Error::MissingArgs(t) && t@
                == seg@),
        },
{
    let n = seg.unicode_len();
    let mut out: Vec<Arg> = Vec::new();
    let mut i: usize = 0;
    proof {
        assert(seg@.skip(0) =~= seg@);
        assert(out@.map_values(|a: Arg| a@) =~= Seq::<ArgV>::empty());
    }
    loop
        invariant
            n == seg@.len(),
            i <= n,
            match spec_args(seg@.skip(i as int)) {
                Option::Some(rest) => spec_args(seg@) == Option::Some(
                    out@.map_values(|a: Arg| a@) + rest,
                ),
                Option::None => spec_args(seg@) is None,
            },
        decreases n - i,
    {
        let rem = seg.substring_char(i, n);
        proof {
            assert(rem@ =~= seg@.skip(i as int));
        }
        match find_char(rem, ',') {
            Option::None => {
                match parse_token(rem) {
                    Option::None => {
                        return Err(Error::MissingArgs(seg.to_owned()));
                    },
                    Option::Some(a) => {
                        proof {
                            let av = a@;
                            assert(spec_args(rem@) == Option::Some(seq![av]));
                            assert(out@.push(a).map_values(|x: Arg| x@) =~= out@.map_values(
                                |x: Arg| x@,
                            ) + seq![av]);
                        }
                        out.push(a);
                        return Ok(out);
                    },
                }
            },
            Option::Some(k) => {
                proof {
                    lemma_spec_find(rem@, ',');
                }
                let tok = seg.substring_char(i, i + k);
                proof {
                    assert(tok@ =~= rem@.take(k as int));
                }
                match parse_token(tok) {
                    Option::None => {
                        return Err(Error::MissingArgs(seg.to_owned()));
                    },
                    Option::Some(a) => {
                        proof {
                            let av = a@;
                            assert(rem@.skip(k + 1) =~= seg@.skip(i + k + 1));
                            match spec_args(seg@.skip(i + k + 1)) {
                                Option::Some(rest) => {
                                    assert(spec_args(rem@) == Option::Some(seq![av] + rest));
                                    assert(out@.push(a).map_values(|x: Arg| x@) =~= out@.map_values(
                                        |x: Arg| x@,
                                    ) + seq![av]);
                                    assert((out@.map_values(|x: Arg| x@) + seq![av]) + rest
                                        =~= out@.map_values(|x: Arg| x@) + (seq![av] + rest));
                                },
                                Option::None => {
                                    assert(spec_args(rem@) is None);
                                },
                            }
                        }
                        out.push(a);
                        i = i + k + 1;
                    },
                }
            },
        }
    }
}

/// Parse the args segment: one or more tokens up to the next `:` or the end
/// of input; the remainder starts at that `:`, or is empty.
pub fn arg1(input: &str) -> (r: Result<(String, Vec<Arg>), Error>)
    ensures
        match r {
            Ok(p) => spec_args(seg_of(input@)) == Option::Some(p.1@.map_values(|a: Arg| a@))
                && p.0@ == seg_rest(input@),
            Err(e) => spec_args(seg_of(input@)) is None && (e matches Error::MissingArgs(t)
                && t@ == seg_of(input@)),
        },
{
    let n = input.unicode_len();
    proof {
        lemma_spec_find(input@, ':');
    }
    let (seg, rest) = match find_char(input, ':') {
        Option::None => (input.substring_char(0, n), String::new()),
        Option::Some(k) => (input.substring_char(0, k), input.substring_char(k, n).to_owned()),
    };
    proof {
        assert(seg@ =~= seg_of(input@));
        assert(rest@ =~= seg_rest(input@));
    }
    match parse_tokens(seg) {
        Ok(v) => Ok((rest, v)),
        Err(e) => {
            match e {
                Error::MissingArgs(_t) => Err(Error::MissingArgs(seg.to_owned())),
                _ => Err(e),
            }
        },
    }
}

/// Parse a whole secret path: backend, args, path segment.  The remainder is
/// empty unless trailing `:`-delimited data follows the path.
pub fn secret_path(input: &str) -> (r: Result<(String, (Backend, Vec<Arg>, String)), Error>)
    ensures
        match r {
            Ok(p) => spec_secret_path(input@) matches Result::Ok(o) && o.0 == p.0@ && o.1.0
                == p.1.0 && o.1.1 == p.1.1@.map_values(|a: Arg| a@) && o.1.2 == p.1.2@,
            Err(e) => spec_secret_path(input@) matches Result::Err(f) && matches_fail(e, f),
        },
{
    let (rest1, b) = match backend(input) {
        Err(e) => {
            return Err(e);
        },
        Ok(p) => p,
    };
    let n1 = rest1.as_str().unicode_len();
    if !crate::text::first_is(rest1.as_str(), ':') {
        return Err(Error::MissingArgs(rest1));
    }
    let rest2 = rest1.as_str().substring_char(1, n1);
    proof {
        assert(rest2@ =~= input@.skip(alpha_len(input@) as int).skip(1));
    }
    let (rest3, args) = match arg1(rest2) {
        Err(e) => {
            return Err(e);
        },
        Ok(p) => p,
    };
    let n3 = rest3.as_str().unicode_len();
    if n3 == 0 {
        return Err(Error::MissingPath(String::new()));
    }
    let rest4 = rest3.as_str().substring_char(1, n3);
    proof {
        assert(rest3@[0] == ':') by {
            lemma_spec_find(rest2@, ':');
        }
        assert(rest4@ =~= seg_rest(rest2@).skip(1));
        lemma_spec_find(rest4@, ':');
    }
    let n4 = rest4.unicode_len();
    let (pseg, extra) = match find_char(rest4, ':') {
        Option::None => (rest4.substring_char(0, n4), String::new()),
        Option::Some(k) => (
            rest4.substring_char(0, k),
            rest4.substring_char(k, n4).to_owned(),
        ),
    };
    proof {
        assert(pseg@ =~= seg_of(rest4@));
        assert(extra@ =~= seg_rest(rest4@));
    }
    if pseg.unicode_len() == 0 {
        return Err(Error::MissingPath(rest4.to_owned()));
    }
    Ok((extra, (b, args, pseg.to_owned())))
}

/// Separate a token list into positional and keyword arguments; the keyword
/// list is absent rather than empty.
pub fn splitargs(args: Vec<Arg>) -> (r: (Vec<String>, Option<Vec<(String, String)>>))
    ensures
        r.0@.map_values(|s: String| s@) == pos_args(args@.map_values(|a: Arg| a@)),
        match r.1 {
            Option::Some(kw) => kwargs_opt(args@.map_values(|a: Arg| a@)) == Option::Some(
                kw@.map_values(|p: (String, String)| (p.0@, p.1@)),
            ),
            Option::None => kwargs_opt(args@.map_values(|a: Arg| a@)) is None,
        },
{
    let ghost all = args@.map_values(|a: Arg| a@);
    let mut pos: Vec<String> = Vec::new();
    let mut kw: Vec<(String, String)> = Vec::new();
    let mut i: usize = 0;
    proof {
        assert(all.skip(0) =~= all);
        assert(pos@.map_values(|s: String| s@) =~= Seq::<Seq<char>>::empty());
        assert(kw@.map_values(|p: (String, String)| (p.0@, p.1@)) =~= Seq::<
            (Seq<char>, Seq<char>),
        >::empty());
        assert(pos@.map_values(|s: String| s@) + pos_args(all) =~= pos_args(all));
        assert(kw@.map_values(|p: (String, String)| (p.0@, p.1@)) + kw_args(all) =~= kw_args(
            all,
        ));
    }
    while i < args.len()
        invariant
            i <= args@.len(),
            all == args@.map_values(|a: Arg| a@),
            pos_args(all) == pos@.map_values(|s: String| s@) + pos_args(all.skip(i as int)),
            kw_args(all) == kw@.map_values(|p: (String, String)| (p.0@, p.1@)) + kw_args(
                all.skip(i as int),
            ),
        decreases args@.len() - i,
    {
        proof {
            assert(all.skip(i as int)[0] == all[i as int]);
            assert(all.skip(i as int).skip(1) =~= all.skip(i + 1));
        }
        match &args[i] {
            Arg::Arg(s) => {
                let c = s.clone();
                proof {
                    assert(pos@.push(c).map_values(|t: String| t@) =~= pos@.map_values(
                        |t: String| t@,
                    ) + seq![s@]);
                    assert((pos@.map_values(|t: String| t@) + seq![s@]) + pos_args(
                        all.skip(i + 1),
                    ) =~= pos@.map_values(|t: String| t@) + (seq![s@] + pos_args(
                        all.skip(i + 1),
                    )));
                }
                pos.push(c);
            },
            Arg::KwArg(kv) => {
                let c = (kv.0.clone(), kv.1.clone());
                proof {
                    assert(kw@.push(c).map_values(|p: (String, String)| (p.0@, p.1@))
                        =~= kw@.map_values(|p: (String, String)| (p.0@, p.1@)) + seq![
                        (kv.0@, kv.1@),
                    ]);
                    assert((kw@.map_values(|p: (String, String)| (p.0@, p.1@)) + seq![
                        (kv.0@, kv.1@),
                    ]) + kw_args(all.skip(i + 1)) =~= kw@.map_values(
                        |p: (String, String)| (p.0@, p.1@),
                    ) + (seq![(kv.0@, kv.1@)] + kw_args(all.skip(i + 1))));
                }
                kw.push(c);
            },
        }
        i += 1;
    }
    proof {
        assert(all.skip(args@.len() as int) =~= Seq::<ArgV>::empty());
        assert(pos@.map_values(|s: String| s@) + Seq::<Seq<char>>::empty() =~= pos@.map_values(
            |s: String| s@,
        ));
        assert(kw@.map_values(|p: (String, String)| (p.0@, p.1@)) + Seq::<
            (Seq<char>, Seq<char>),
        >::empty() =~= kw@.map_values(|p: (String, String)| (p.0@, p.1@)));
    }
    if kw.len() == 0 {
        (pos, Option::None)
    } else {
        (pos, Option::Some(kw))
    }
}

} // verus!
