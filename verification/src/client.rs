//! The cached login handles of the authenticated secret service.

use vstd::prelude::*;

use crate::assoc::{assoc_find, assoc_get, assoc_set, distinct_keys, lemma_assoc_absent,
    lemma_assoc_found};
use crate::secret::{spec_elapsed, two_thirds};

verus! {

/// Model of a login handle.
pub struct AuthV {
    pub client_token: Seq<char>,
    pub lease_duration: u64,
    pub renewable: bool,
    pub fetched_at: u64,
}

/// A login handle: the token of the service response, with its lease.
#[derive(Debug)]
pub struct Auth {
    pub client_token: String,
    pub lease_duration: u64,
    pub renewable: bool,
    pub fetched_at: u64,
}

impl View for Auth {
    type V = AuthV;

    open spec fn view(&self) -> AuthV {
        AuthV {
            client_token: self.client_token@,
            lease_duration: self.lease_duration,
            renewable: self.renewable,
            fetched_at: self.fetched_at,
        }
    }
}

impl AuthV {
    /// Not yet expired.  A zero lease never expires.
    pub open spec fn is_fresh(self, now: u64) -> bool {
        self.lease_duration == 0 || spec_elapsed(self.fetched_at, now) < self.lease_duration
    }

    /// The delay before a renewable handle is renewed.
    pub open spec fn renew_delay(self) -> Option<u64> {
        if self.renewable {
            Option::Some(two_thirds(self.lease_duration))
        } else {
            Option::None
        }
    }
}

/// The login handles held per role, in insertion order.
pub struct Auths {
    entries: Vec<(String, Auth)>,
}

impl View for Auths {
    type V = Seq<(Seq<char>, AuthV)>;

    closed spec fn view(&self) -> Seq<(Seq<char>, AuthV)> {
        self.entries@.map_values(|p: (String, Auth)| (p.0@, p.1@))
    }
}

impl Auths {
    pub open spec fn wf(&self) -> bool {
        distinct_keys(self@)
    }

    pub fn new() -> (r: Self)
        ensures
            r@.len() == 0,
            r.wf(),
    {
        let r = Auths { entries: Vec::new() };
        proof {
            assert(r@ =~= Seq::<(Seq<char>, AuthV)>::empty());
        }
        r
    }

    /// Is a non-expired handle held for the role?
    pub fn is_logged(&self, role: &str, now: u64) -> (r: bool)
        ensures
            r == (assoc_get(self@, role@) matches Option::Some(a) && a.is_fresh(now)),
    {
        proof {
            assert(forall|j: int| 0 <= j < self@.len() ==> #[trigger] self@[j] == (
            self.entries@[j].0@, self.entries@[j].1@));
        }
        match assoc_find(&self.entries, role) {
            Option::Some(i) => {
                proof {
                    lemma_assoc_found(self@, role@, self.entries@[i as int].1@, i as int);
                }
                let a = &self.entries[i].1;
                if a.lease_duration == 0 {
                    true
                } else {
                    let elapsed = if now >= a.fetched_at {
                        now - a.fetched_at
                    } else {
                        0
                    };
                    elapsed < a.lease_duration
                }
            },
            Option::None => {
                proof {
                    lemma_assoc_absent(
                        self@,
                        role@,
                        AuthV {
                            client_token: Seq::empty(),
                            lease_duration: 0,
                            renewable: false,
                            fetched_at: 0,
                        },
                    );
                }
                false
            },
        }
    }

    /// The cached handle for a role, if any.
    pub fn get(&self, role: &str) -> (r: Option<&Auth>)
        ensures
            match r {
                Option::Some(a) => assoc_get(self@, role@) == Option::Some(a@),
                Option::None => assoc_get(self@, role@) is None,
            },
    {
        proof {
            assert(forall|j: int| 0 <= j < self@.len() ==> #[trigger] self@[j] == (
            self.entries@[j].0@, self.entries@[j].1@));
        }
        match assoc_find(&self.entries, role) {
            Option::Some(i) => {
                proof {
                    lemma_assoc_found(self@, role@, self.entries@[i as int].1@, i as int);
                }
                Option::Some(&self.entries[i].1)
            },
            Option::None => {
                proof {
                    lemma_assoc_absent(
                        self@,
                        role@,
                        AuthV {
                            client_token: Seq::empty(),
                            lease_duration: 0,
                            renewable: false,
                            fetched_at: 0,
                        },
                    );
                }
                Option::None
            },
        }
    }

    /// Cache the handle a login returned; an older handle for the role is
    /// replaced.
    pub fn store(&mut self, role: &str, auth: Auth)
        requires
            old(self).wf(),
        ensures
            final(self)@ == assoc_set(old(self)@, role@, auth@),
            final(self).wf(),
    {
        let ghost pre = self@;
        let ghost av = auth@;
        proof {
            assert(forall|j: int| 0 <= j < pre.len() ==> #[trigger] pre[j] == (
            self.entries@[j].0@, self.entries@[j].1@));
        }
        match assoc_find(&self.entries, role) {
            Option::Some(i) => {
                proof {
                    lemma_assoc_found(pre, role@, av, i as int);
                }
                let slot = vstd::std_specs::vec::vec_index_mut(&mut self.entries, i);
                *slot = (role.to_owned(), auth);
                proof {
                    assert(self@ =~= pre.update(i as int, (role@, av)));
                    assert forall|x: int, y: int| 0 <= x < y < self@.len() implies (
                    #[trigger] self@[x].0) != (#[trigger] self@[y].0) by {
                        assert(self@[x].0 == pre[x].0);
                        assert(self@[y].0 == pre[y].0);
                    }
                }
            },
            Option::None => {
                proof {
                    lemma_assoc_absent(pre, role@, av);
                }
                self.entries.push((role.to_owned(), auth));
                proof {
                    assert(self@ =~= pre.push((role@, av)));
                    assert forall|x: int, y: int| 0 <= x < y < self@.len() implies (
                    #[trigger] self@[x].0) != (#[trigger] self@[y].0) by {
                        if y == self@.len() - 1 {
                            assert(pre[x] == self@[x]);
                        }
                    }
                }
            },
        }
    }
}

impl Auth {
    /// The delay before a renewable handle is renewed: two thirds of its
    /// lease.
    pub fn renew_delay(&self) -> (r: Option<u64>)
        ensures
            r == self@.renew_delay(),
    {
        if self.renewable {
            let dd = self.lease_duration as u128;
            let t = dd * 2 / 3;
            proof {
                assert(t <= dd);
                assert(dd * 2 == 2 * dd);
            }
            Option::Some(t as u64)
        } else {
            Option::None
        }
    }
}

} // verus!
