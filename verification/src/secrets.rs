//! The in-memory secret store: secret-path text to optional secret value.

use vstd::prelude::*;

use crate::assoc::{assoc_find, assoc_get, assoc_set, distinct_keys, lemma_assoc_absent,
    lemma_assoc_found};
use crate::secret::{Secret, SecretV};

verus! {

/// Does the store hold at least one leased secret?
pub open spec fn any_leased_in(store: Seq<(Seq<char>, Option<SecretV>)>) -> bool {
    exists|i: int|
        0 <= i < store.len() && ((#[trigger] store[i].1) matches Option::Some(s)
            && s.has_lease())
}

/// The view of one stored slot.
pub open spec fn slot_view(o: Option<Secret>) -> Option<SecretV> {
    match o {
        Option::None => Option::None,
        Option::Some(s) => Option::Some(s@),
    }
}

/// Mapping from secret-path text to an optional secret value, in insertion
/// order.  A `None` slot is the placeholder that marks a fetch already
/// asked for.
pub struct Secrets {
    entries: Vec<(String, Option<Secret>)>,
}

impl View for Secrets {
    type V = Seq<(Seq<char>, Option<SecretV>)>;

    closed spec fn view(&self) -> Seq<(Seq<char>, Option<SecretV>)> {
        self.entries@.map_values(|p: (String, Option<Secret>)| (p.0@, slot_view(p.1)))
    }
}

impl Secrets {
    /// Every key is bound once.
    pub open spec fn wf(&self) -> bool {
        distinct_keys(self@)
    }

    pub fn new() -> (r: Self)
        ensures
            r@.len() == 0,
            r.wf(),
    {
        let r = Secrets { entries: Vec::new() };
        proof {
            assert(r@ =~= Seq::<(Seq<char>, Option<SecretV>)>::empty());
        }
        r
    }

    pub fn len(&self) -> (r: usize)
        ensures
            r == self@.len(),
    {
        self.entries.len()
    }

    /// The slot at position `i`, in insertion order.
    pub fn at(&self, i: usize) -> (r: &(String, Option<Secret>))
        requires
            i < self@.len(),
        ensures
            self@[i as int] == (r.0@, slot_view(r.1)),
    {
        &self.entries[i]
    }

    /// The slot stored under `path`, or `None` when the path was never
    /// asked for.
    pub fn get(&self, path: &str) -> (r: Option<&Option<Secret>>)
        ensures
            match r {
                Option::Some(slot) => assoc_get(self@, path@) == Option::Some(slot_view(*slot)),
                Option::None => assoc_get(self@, path@) is None,
            },
    {
        match assoc_find(&self.entries, path) {
            Option::Some(i) => {
                proof {
                    assert(forall|j: int| 0 <= j < self@.len() ==> #[trigger] self@[j] == (
                    self.entries@[j].0@, slot_view(self.entries@[j].1)));
                    lemma_assoc_found(self@, path@, slot_view(self.entries@[i as int].1), i as int);
                }
                Option::Some(&self.entries[i].1)
            },
            Option::None => {
                proof {
                    assert(forall|j: int| 0 <= j < self@.len() ==> #[trigger] self@[j] == (
                    self.entries@[j].0@, slot_view(self.entries@[j].1)));
                    lemma_assoc_absent(self@, path@, Option::<SecretV>::None);
                }
                Option::None
            },
        }
    }

    /// Record that a fetch for `path` has been asked for, without a value
    /// yet.
    pub fn insert_none(&mut self, path: String)
        requires
            old(self).wf(),
            assoc_get(old(self)@, path@) is None,
        ensures
            final(self)@ == old(self)@.push((path@, Option::<SecretV>::None)),
            final(self).wf(),
    {
        let ghost pre = self@;
        self.entries.push((path, Option::None));
        proof {
            assert(self@ =~= pre.push((self.entries@.last().0@, Option::<SecretV>::None)));
            assert forall|i: int, j: int| 0 <= i < j < self@.len() implies (
            #[trigger] self@[i].0) != (#[trigger] self@[j].0) by {
                if j < self@.len() - 1 {
                } else {
                    assert(pre[i] == self@[i]);
                    if self@[i].0 == self@[j].0 {
                        crate::assoc::lemma_assoc_found(
                            pre,
                            self@[j].0,
                            Option::<SecretV>::None,
                            choose|x: int|
                                0 <= x < pre.len() && pre[x].0 == self@[j].0 && forall|y: int|
                                    0 <= y < x ==> (#[trigger] pre[y].0) != self@[j].0,
                        );
                    }
                }
            }
        }
    }

    /// Overwrite the slot at `path`.  Returns `true` exactly when the
    /// previous value was absent, a placeholder, or a different payload.
    pub fn replace(&mut self, path: &str, secret: Secret) -> (r: bool)
        requires
            old(self).wf(),
        ensures
            final(self)@ == assoc_set(old(self)@, path@, Option::Some(secret@)),
            final(self).wf(),
            r == (match assoc_get(old(self)@, path@) {
                Option::None => true,
                Option::Some(Option::None) => true,
                Option::Some(Option::Some(prev)) => prev.value != secret@.value,
            }),
    {
        let ghost pre = self@;
        proof {
            assert(forall|j: int| 0 <= j < pre.len() ==> #[trigger] pre[j] == (
            self.entries@[j].0@, slot_view(self.entries@[j].1)));
        }
        match assoc_find(&self.entries, path) {
            Option::Some(i) => {
                proof {
                    lemma_assoc_found(pre, path@, Option::Some(secret@), i as int);
                }
                let changed = match &self.entries[i].1 {
                    Option::None => true,
                    Option::Some(prev) => !crate::value::json_eq(&prev.value, &secret.value),
                };
                let key = self.entries[i].0.clone();
                let slot = vstd::std_specs::vec::vec_index_mut(&mut self.entries, i);
                *slot = (key, Option::Some(secret));
                proof {
                    assert(self@ =~= pre.update(i as int, (path@, Option::Some(
                        self.entries@[i as int].1->Some_0@,
                    ))));
                    assert forall|x: int, y: int| 0 <= x < y < self@.len() implies (
                    #[trigger] self@[x].0) != (#[trigger] self@[y].0) by {
                        assert(self@[x].0 == pre[x].0);
                        assert(self@[y].0 == pre[y].0);
                    }
                }
                changed
            },
            Option::None => {
                proof {
                    lemma_assoc_absent(pre, path@, Option::Some(secret@));
                }
                self.entries.push((path.to_owned(), Option::Some(secret)));
                proof {
                    assert(self@ =~= pre.push((path@, Option::Some(
                        self.entries@.last().1->Some_0@,
                    ))));
                    assert forall|x: int, y: int| 0 <= x < y < self@.len() implies (
                    #[trigger] self@[x].0) != (#[trigger] self@[y].0) by {
                        if y == self@.len() - 1 {
                            assert(pre[x] == self@[x]);
                        }
                    }
                }
                true
            },
        }
    }

    /// Is any stored secret leased, a zero-second lease included?
    pub fn any_leased(&self) -> (r: bool)
        ensures
            r == any_leased_in(self@),
    {
        proof {
            assert(forall|j: int| 0 <= j < self@.len() ==> #[trigger] self@[j] == (
            self.entries@[j].0@, slot_view(self.entries@[j].1)));
        }
        let mut i: usize = 0;
        while i < self.entries.len()
            invariant
                i <= self@.len(),
                self@.len() == self.entries@.len(),
                forall|j: int| 0 <= j < self@.len() ==> #[trigger] self@[j] == (
                self.entries@[j].0@, slot_view(self.entries@[j].1)),
                forall|j: int| 0 <= j < i ==> !((#[trigger] self@[j].1) matches Option::Some(s)
                    && s.has_lease()),
            decreases self@.len() - i,
        {
            match &self.entries[i].1 {
                Option::Some(s) => {
                    if s.has_lease() {
                        assert(self@[i as int].1 matches Option::Some(x) && x.has_lease());
                        return true;
                    }
                },
                Option::None => {},
            }
            i += 1;
        }
        false
    }
}

} // verus!
