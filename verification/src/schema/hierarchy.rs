//! The hierarchy of administrations: the walk from an administration up to
//! its root, and the elections that are visible along the way.

use vstd::prelude::*;
use crate::error::QueryError;
use crate::model::time::Timestamp;
use crate::model::{Administration, AdministrationAddress, AdministrationView, Election, ElectionView};
use crate::schema::lemmas::lemma_find_administration;
use crate::schema::view::SchemaView;
use crate::schema::ElectionSchema;

verus! {

/// The greatest level at which an administration can stand and still be
/// reached by a walk through the hierarchy.
pub const MAX_RECURSION_DEPTH: u32 = 64;

/// The contents of a list of administrations.
pub open spec fn administrations_of(list: Seq<Administration>) -> Seq<AdministrationView> {
    Seq::new(list.len(), |i: int| list[i]@)
}

/// The contents of a list of elections.
pub open spec fn elections_of(list: Seq<Election>) -> Seq<ElectionView> {
    Seq::new(list.len(), |i: int| list[i]@)
}

impl SchemaView {
    /// The level of the administration `key`.
    pub open spec fn level(self, key: AdministrationAddress) -> nat
        recommends
            self.has_administration(key),
    {
        self.administration(key).administration.administration_level
    }

    /// The administrations met on a walk of at most `steps` steps that starts
    /// at `start` and goes from each administration to its principal.
    pub open spec fn walk(self, start: Option<AdministrationAddress>, steps: nat) -> Seq<
        AdministrationView,
    >
        decreases steps,
    {
        match start {
            Some(key) => if steps > 0 && self.has_administration(key) {
                seq![self.administration(key).administration] + self.walk(
                    self.administration(key).administration.principal_key,
                    (steps - 1) as nat,
                )
            } else {
                Seq::empty()
            },
            None => Seq::empty(),
        }
    }

    /// The administration `key`, then its principal, then the principal of
    /// that one, and so on up to the root, as far as a walk may go.
    pub open spec fn lineage(self, key: AdministrationAddress) -> Seq<AdministrationView> {
        self.walk(Some(key), (MAX_RECURSION_DEPTH + 1) as nat)
    }

    /// The elections with the addresses `ids`, in the order of `ids`.
    pub open spec fn elections_listed(self, ids: Seq<int>) -> Seq<ElectionView> {
        Seq::new(ids.len(), |i: int| self.election(ids[i]).election)
    }

    /// The addresses of the elections that the administrations of `chain`
    /// issued: first those of the first administration, oldest first, then
    /// those of the second, and so on.
    pub open spec fn ids_along(self, chain: Seq<AdministrationView>) -> Seq<int>
        decreases chain.len(),
    {
        if chain.len() == 0 {
            Seq::empty()
        } else {
            self.ids_along(chain.drop_last()) + self.administration(chain.last().addr).elections
        }
    }

    /// The elections that are visible from the administration `key`: its own
    /// and those of every administration above it.
    pub open spec fn elections_of_hierarchy(self, key: AdministrationAddress) -> Seq<
        ElectionView,
    > {
        self.elections_listed(self.ids_along(self.lineage(key)))
    }

    /// The elections visible from the administration `key` that are not
    /// cancelled and whose run overlaps the closed range from `from` to `to`.
    pub open spec fn elections_in_range(
        self,
        key: AdministrationAddress,
        from: Timestamp,
        to: Timestamp,
    ) -> Seq<ElectionView> {
        self.elections_of_hierarchy(key).filter(|e: ElectionView| e.overlaps(from, to))
    }

    /// The elections that the administration `key` issued itself and that
    /// start or finish within the half-open range from `from` to `to`.
    pub open spec fn elections_turning_within(
        self,
        key: AdministrationAddress,
        from: Timestamp,
        to: Timestamp,
    ) -> Seq<ElectionView> {
        self.elections_listed(self.administration(key).elections).filter(
            |e: ElectionView| e.turns_within(from, to),
        )
    }

    /// The elections that the administration `key` issued itself and that
    /// take votes at `moment`.
    pub open spec fn elections_at_moment(self, key: AdministrationAddress, moment: Timestamp) -> Seq<
        ElectionView,
    > {
        self.elections_listed(self.administration(key).elections).filter(
            |e: ElectionView| e.is_active(moment),
        )
    }
}

/// What a walk of enough steps finds on a well-formed ledger: one
/// administration for each level from that of the start down to zero, each on
/// the ledger under its own address, each the principal of the one before it,
/// and the last one a root.
pub proof fn lemma_walk(s: SchemaView, key: AdministrationAddress, steps: nat)
    requires
        s.wf(),
        s.has_administration(key),
        s.level(key) < steps,
    ensures
        s.walk(Some(key), steps).len() == s.level(key) + 1,
        s.walk(Some(key), steps)[0] == s.administration(key).administration,
        forall|k: int|
            0 <= k < s.walk(Some(key), steps).len() ==> {
                let met = #[trigger] s.walk(Some(key), steps)[k];
                &&& s.has_administration(met.addr)
                &&& s.administration(met.addr).administration == met
                &&& met.administration_level == s.level(key) - k
            },
        forall|k: int|
            0 <= k < s.walk(Some(key), steps).len() - 1 ==> (#[trigger] s.walk(
                Some(key),
                steps,
            )[k]).principal_key == Some(s.walk(Some(key), steps)[k + 1].addr),
        s.walk(Some(key), steps).last().principal_key is None,
    decreases steps,
{
    lemma_find_administration(s, key);
    let here = s.administration(key).administration;
    let rest = s.walk(here.principal_key, (steps - 1) as nat);
    let all = s.walk(Some(key), steps);
    assert(all == seq![here] + rest);
    match here.principal_key {
        Some(principal) => {
            lemma_walk(s, principal, (steps - 1) as nat);
            assert forall|k: int| 0 <= k < all.len() implies {
                let met = #[trigger] all[k];
                &&& s.has_administration(met.addr)
                &&& s.administration(met.addr).administration == met
                &&& met.administration_level == s.level(key) - k
            } by {
                if k > 0 {
                    assert(all[k] == rest[k - 1]);
                }
            }
            assert forall|k: int| 0 <= k < all.len() - 1 implies (#[trigger] all[k]).principal_key
                == Some(all[k + 1].addr) by {
                assert(all[k + 1] == rest[k]);
                if k > 0 {
                    assert(all[k] == rest[k - 1]);
                }
            }
            assert(all.last() == rest.last());
        },
        None => {
            assert(rest =~= Seq::empty());
            assert(all =~= seq![here]);
        },
    }
}

/// A cursor that climbs the hierarchy of administrations, one principal at a time.
#[derive(Debug)]
pub struct PrincipalIterator<'a> {
    pub index: &'a ElectionSchema,
    pub key: Option<AdministrationAddress>,
}

impl<'a> PrincipalIterator<'a> {
    /// Returns the administration under the cursor and moves the cursor to
    /// its principal; returns `None` once the cursor has left the root.
    pub fn next(&mut self) -> (item: Option<Administration>)
        requires
            old(self).index.wf(),
            old(self).key matches Some(key) ==> old(self).index@.has_administration(key),
        ensures
            final(self).index == old(self).index,
            match old(self).key {
                Some(key) => item matches Some(met) && met@ == old(self).index@.administration(
                    key,
                ).administration && final(self).key == met@.principal_key,
                None => item is None && final(self).key is None,
            },
    {
        match self.key {
            Some(key) => {
                let principal = self.index.administration(&key).unwrap().clone();
                self.key = principal.principal_key.0;
                Some(principal)
            },
            None => None,
        }
    }
}

impl ElectionSchema {
    /// Walks from the administration `key` up to its root and returns what it
    /// met, `key` first. Fails with `NotFound` where `key` is no
    /// administration, and with `RecursionLimitExceeded` where it stands
    /// below level `MAX_RECURSION_DEPTH`.
    pub fn iter_principals(&self, key: &AdministrationAddress) -> (walked: Result<
        Vec<Administration>,
        QueryError,
    >)
        requires
            self.wf(),
        ensures
            match walked {
                Ok(chain) => self@.has_administration(*key) && self@.level(*key)
                    <= MAX_RECURSION_DEPTH && administrations_of(chain@) == self@.lineage(*key),
                Err(error) => if self@.has_administration(*key) {
                    error == QueryError::RecursionLimitExceeded && self@.level(*key)
                        > MAX_RECURSION_DEPTH
                } else {
                    error == QueryError::NotFound
                },
            },
    {
        let level: u32 = match self.administration(key) {
            Some(start) => start.administration_level,
            None => {
                return Err(QueryError::NotFound);
            },
        };
        if level > MAX_RECURSION_DEPTH {
            return Err(QueryError::RecursionLimitExceeded);
        }
        proof {
            lemma_walk(self@, *key, (MAX_RECURSION_DEPTH + 1) as nat);
        }
        let ghost whole = self@.lineage(*key);
        let mut cursor = PrincipalIterator { index: self, key: Some(*key) };
        let mut chain: Vec<Administration> = Vec::new();
        while cursor.key.is_some()
            invariant
                self.wf(),
                cursor.index == self,
                whole == self@.lineage(*key),
                whole.len() == level + 1,
                level <= MAX_RECURSION_DEPTH,
                chain@.len() <= whole.len(),
                forall|k: int|
                    0 <= k < whole.len() ==> self@.has_administration((#[trigger] whole[k]).addr)
                        && self@.administration(whole[k].addr).administration == whole[k],
                forall|k: int|
                    0 <= k < whole.len() - 1 ==> (#[trigger] whole[k]).principal_key == Some(
                        whole[k + 1].addr,
                    ),
                whole.last().principal_key is None,
                forall|k: int| 0 <= k < chain@.len() ==> (#[trigger] chain@[k])@ == whole[k],
                cursor.key == if chain@.len() < whole.len() {
                    Some(whole[chain@.len() as int].addr)
                } else {
                    None
                },
            decreases whole.len() - chain@.len(),
        {
            let ghost at = chain@.len() as int;
            assert(self@.has_administration(whole[at].addr));
            let met = cursor.next().unwrap();
            chain.push(met);
        }
        assert(administrations_of(chain@) =~= whole);
        Ok(chain)
    }

    /// The same walk as [`ElectionSchema::iter_principals`]: the
    /// administration `key` itself comes first.
    pub fn iter_principals_from_current(&self, key: &AdministrationAddress) -> (walked: Result<
        Vec<Administration>,
        QueryError,
    >)
        requires
            self.wf(),
        ensures
            match walked {
                Ok(chain) => self@.has_administration(*key) && self@.level(*key)
                    <= MAX_RECURSION_DEPTH && administrations_of(chain@) == self@.lineage(*key),
                Err(error) => if self@.has_administration(*key) {
                    error == QueryError::RecursionLimitExceeded && self@.level(*key)
                        > MAX_RECURSION_DEPTH
                } else {
                    error == QueryError::NotFound
                },
            },
    {
        self.iter_principals(key)
    }
}

} // verus!
