//! Per-output-file content digests and change detection.

use vstd::prelude::*;

use sha1::Digest;

use crate::assoc::{assoc_find, assoc_get, assoc_set, distinct_keys, lemma_assoc_absent,
    lemma_assoc_found};

verus! {

/// The SHA-1 digest of a byte string.
pub uninterp spec fn sha1_of(data: Seq<u8>) -> Seq<u8>;

/// Relies on `sha1::Sha1`: the SHA-1 digest of the input bytes, a function
/// of the bytes alone.
#[verifier::external_body]
fn sha1_digest(data: &[u8]) -> (r: Vec<u8>)
    ensures
        r@ == sha1_of(data@),
{
    let mut hasher = sha1::Sha1::new();
    hasher.update(data);
    hasher.finalize().to_vec()
}

/// Mapping from output-file path to the digest of the content last written
/// there.
pub struct Checksums {
    entries: Vec<(String, Vec<u8>)>,
}

impl View for Checksums {
    type V = Seq<(Seq<char>, Seq<u8>)>;

    closed spec fn view(&self) -> Seq<(Seq<char>, Seq<u8>)> {
        self.entries@.map_values(|p: (String, Vec<u8>)| (p.0@, p.1@))
    }
}

impl Checksums {
    pub open spec fn wf(&self) -> bool {
        distinct_keys(self@)
    }

    pub fn new() -> (r: Self)
        ensures
            r@.len() == 0,
            r.wf(),
    {
        let r = Checksums { entries: Vec::new() };
        proof {
            assert(r@ =~= Seq::<(Seq<char>, Seq<u8>)>::empty());
        }
        r
    }

    /// The digest stored for `path`, if any.
    pub fn digest(&self, path: &str) -> (r: Option<&Vec<u8>>)
        ensures
            match r {
                Option::Some(d) => assoc_get(self@, path@) == Option::Some(d@),
                Option::None => assoc_get(self@, path@) is None,
            },
    {
        proof {
            assert(forall|j: int| 0 <= j < self@.len() ==> #[trigger] self@[j] == (
            self.entries@[j].0@, self.entries@[j].1@));
        }
        match assoc_find(&self.entries, path) {
            Option::Some(i) => {
                proof {
                    lemma_assoc_found(self@, path@, self.entries@[i as int].1@, i as int);
                }
                Option::Some(&self.entries[i].1)
            },
            Option::None => {
                proof {
                    lemma_assoc_absent(self@, path@, Seq::<u8>::empty());
                }
                Option::None
            },
        }
    }

    /// Digest `content`, store it under `path`, and report whether the
    /// digest is new or differs from the one stored before.  A first
    /// insertion counts as a change.
    pub fn hash_file(&mut self, path: &str, content: &[u8]) -> (r: bool)
        requires
            old(self).wf(),
        ensures
            final(self)@ == assoc_set(old(self)@, path@, sha1_of(content@)),
            final(self).wf(),
            r == (assoc_get(old(self)@, path@) != Option::Some(sha1_of(content@))),
    {
        let digest = sha1_digest(content);
        let ghost pre = self@;
        proof {
            assert(forall|j: int| 0 <= j < pre.len() ==> #[trigger] pre[j] == (
            self.entries@[j].0@, self.entries@[j].1@));
        }
        match assoc_find(&self.entries, path) {
            Option::Some(i) => {
                proof {
                    lemma_assoc_found(pre, path@, sha1_of(content@), i as int);
                }
                let same = self.entries[i].1 == digest;
                proof {
                    if same {
                        assert(self.entries@[i as int].1@ =~= digest@);
                    } else {
                        if self.entries@[i as int].1@ == digest@ {
                            assert(self.entries@[i as int].1.len() == digest.len());
                            assert(forall|j: int|
                                0 <= j < digest@.len() ==> self.entries@[i as int].1@[j]
                                    == digest@[j]);
                        }
                    }
                }
                let changed = !same;
                let key = self.entries[i].0.clone();
                let slot = vstd::std_specs::vec::vec_index_mut(&mut self.entries, i);
                *slot = (key, digest);
                proof {
                    assert(self@ =~= pre.update(i as int, (path@, sha1_of(content@))));
                    assert forall|x: int, y: int| 0 <= x < y < self@.len() implies (
                    #[trigger] self@[x].0) != (#[trigger] self@[y].0) by {
                        assert(self@[x].0 == pre[x].0);
                        assert(self@[y].0 == pre[y].0);
                    }
                }
                changed
            },
            Option::None => {
                proof {
                    lemma_assoc_absent(pre, path@, sha1_of(content@));
                }
                self.entries.push((path.to_owned(), digest));
                proof {
                    assert(self@ =~= pre.push((path@, sha1_of(content@))));
                    assert forall|x: int, y: int| 0 <= x < y < self@.len() implies (
                    #[trigger] self@[x].0) != (#[trigger] self@[y].0) by {
                        if y == self@.len() - 1 {
                            assert(pre[x] == self@[x]);
                        }
                    }
                }
                true
            },
        }
    }
}

} // verus!
