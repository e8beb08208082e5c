//! The supported secret backends and their textual names.

use vstd::prelude::*;

use crate::error::Error;
use crate::text::is_alpha;

verus! {

/// The different types of supported backend.
#[derive(Debug, PartialEq, Eq, Copy, Clone, Structural)]
pub enum Backend {
    /// The authenticated secret service.
    Vault,
    /// Process environment.
    Env,
    /// Filesystem.
    File,
    /// Subprocess output.
    Exe,
}

/// Canonical textual name of a backend.
pub open spec fn backend_name(b: Backend) -> Seq<char> {
    match b {
        Backend::Vault => "vault"@,
        Backend::Env => "env"@,
        Backend::File => "file"@,
        Backend::Exe => "exe"@,
    }
}

pub open spec fn is_prefix(p: Seq<char>, s: Seq<char>) -> bool {
    p.len() <= s.len() && s.take(p.len() as int) == p
}

/// Which backend a token selects: the first table entry whose name prefixes
/// the token.
pub open spec fn spec_backend_of(tok: Seq<char>) -> Option<Backend> {
    if is_prefix("vault"@, tok) {
        Option::Some(Backend::Vault)
    } else if is_prefix("env"@, tok) {
        Option::Some(Backend::Env)
    } else if is_prefix("file"@, tok) {
        Option::Some(Backend::File)
    } else if is_prefix("exe"@, tok) {
        Option::Some(Backend::Exe)
    } else {
        Option::None
    }
}

/// Does `s` start with `p`?
pub fn has_prefix(s: &str, p: &str) -> (r: bool)
    ensures
        r == is_prefix(p@, s@),
{
    let np = p.unicode_len();
    let ns = s.unicode_len();
    if np > ns {
        return false;
    }
    let mut i: usize = 0;
    while i < np
        invariant
            np == p@.len(),
            ns == s@.len(),
            np <= ns,
            i <= np,
            forall|j: int| 0 <= j < i ==> s@[j] == p@[j],
        decreases np - i,
    {
        if s.get_char(i) != p.get_char(i) {
            assert(s@.take(np as int)[i as int] != p@[i as int]);
            return false;
        }
        i += 1;
    }
    proof {
        assert(s@.take(np as int) =~= p@);
    }
    true
}

/// Number of leading alphabetic characters.
pub open spec fn alpha_len(s: Seq<char>) -> nat
    decreases s.len(),
{
    if s.len() == 0 || !is_alpha(s[0]) {
        0
    } else {
        1 + alpha_len(s.skip(1))
    }
}

pub proof fn lemma_alpha_len(s: Seq<char>)
    ensures
        alpha_len(s) <= s.len(),
        forall|j: int| 0 <= j < alpha_len(s) ==> is_alpha(s[j]),
        alpha_len(s) < s.len() ==> !is_alpha(s[alpha_len(s) as int]),
    decreases s.len(),
{
    if s.len() > 0 && is_alpha(s[0]) {
        lemma_alpha_len(s.skip(1));
        assert forall|j: int| 0 <= j < alpha_len(s) implies is_alpha(s[j]) by {
            if j >= 1 {
                assert(s.skip(1)[j - 1] == s[j]);
            }
        }
        if alpha_len(s) < s.len() {
            assert(s.skip(1)[alpha_len(s) - 1] == s[alpha_len(s) as int]);
        }
    }
}

impl Backend {
    /// The backend selected by a token, by prefix against the fixed table.
    pub fn from_token(tok: &str) -> (r: Result<Backend, Error>)
        ensures
            match r {
                Ok(b) => spec_backend_of(tok@) == Option::Some(b),
                Err(e) => spec_backend_of(tok@) is None && (e matches Error::UnknownBackend(t)
                    && t@ == tok@),
            },
    {
        if has_prefix(tok, "vault") {
            Ok(Backend::Vault)
        } else if has_prefix(tok, "env") {
            Ok(Backend::Env)
        } else if has_prefix(tok, "file") {
            Ok(Backend::File)
        } else if has_prefix(tok, "exe") {
            Ok(Backend::Exe)
        } else {
            Err(Error::UnknownBackend(tok.to_owned()))
        }
    }

    /// The canonical name, the inverse of prefix matching on exact names.
    pub fn name(&self) -> (r: &'static str)
        ensures
            r@ == backend_name(*self),
    {
        match self {
            Backend::Vault => "vault",
            Backend::Env => "env",
            Backend::File => "file",
            Backend::Exe => "exe",
        }
    }
}

} // verus!
