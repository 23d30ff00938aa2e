//! What the ledger tells about its elections: which are visible from an
//! administration, which take votes, and how the votes stand.

use std::collections::HashMap;
use vstd::prelude::*;
use crate::error::QueryError;
use crate::model::time::{Timestamp, SECONDS_PER_WEEK};
use crate::model::{
    AdministrationAddress, AdministrationView, Election, ElectionAddress, ElectionOptionAddress,
    ElectionView,
};
use crate::schema::hierarchy::{administrations_of, elections_of, lemma_walk, MAX_RECURSION_DEPTH};
use crate::schema::lemmas::lemma_find_administration;
use crate::schema::view::{Ballot, SchemaView};
use crate::schema::{administrations_view, elections_view, ElectionSchema};

verus! {

broadcast use vstd::std_specs::hash::group_hash_axioms;

/// A list of election addresses as mathematical integers.
pub open spec fn ids_view(ids: Seq<ElectionAddress>) -> Seq<int> {
    Seq::new(ids.len(), |i: int| ids[i] as int)
}

/// The number of votes for the option `option` among `votes`.
pub open spec fn count_votes(votes: Seq<Ballot>, option: int) -> nat {
    votes.filter(|b: Ballot| b.option_id == option).len()
}

impl SchemaView {
    /// The standing of the election `id`: for every option that the election
    /// declares, the number of votes for it.
    pub open spec fn election_results(self, id: int) -> Map<ElectionOptionAddress, u32> {
        Map::new(
            |option: ElectionOptionAddress| self.election(id).election.has_option(option as int),
            |option: ElectionOptionAddress|
                count_votes(self.election(id).votes, option as int) as u32,
        )
    }
}

/// Filtering a list with one more element keeps that element or not, and
/// what came before it as before.
pub proof fn lemma_filter_push<A>(list: Seq<A>, last: A, keep: spec_fn(A) -> bool)
    ensures
        list.push(last).filter(keep) == if keep(last) {
            list.filter(keep).push(last)
        } else {
            list.filter(keep)
        },
{
    reveal(Seq::filter);
    assert(list.push(last).drop_last() =~= list);
}

/// Filtering the empty list leaves it empty.
pub proof fn lemma_filter_empty<A>(keep: spec_fn(A) -> bool)
    ensures
        Seq::<A>::empty().filter(keep) == Seq::<A>::empty(),
{
    reveal(Seq::filter);
}

/// Along a chain of administrations of a well-formed ledger every listed
/// election is on the ledger.
pub proof fn lemma_ids_along(s: SchemaView, chain: Seq<AdministrationView>)
    requires
        s.wf(),
        forall|k: int| 0 <= k < chain.len() ==> s.has_administration((#[trigger] chain[k]).addr),
    ensures
        forall|k: int|
            0 <= k < s.ids_along(chain).len() ==> s.has_election(#[trigger] s.ids_along(chain)[k]),
    decreases chain.len(),
{
    if chain.len() > 0 {
        let front = chain.drop_last();
        assert forall|k: int| 0 <= k < front.len() implies s.has_administration(
            (#[trigger] front[k]).addr,
        ) by {
            assert(front[k] == chain[k]);
        }
        lemma_ids_along(s, front);
        let key = chain.last().addr;
        assert(s.has_administration(chain[chain.len() - 1].addr));
        lemma_find_administration(s, key);
        let own = s.administration(key).elections;
        let all = s.ids_along(chain);
        assert forall|k: int| 0 <= k < all.len() implies s.has_election(#[trigger] all[k]) by {
            let before = s.ids_along(front).len();
            if k < before {
                assert(all[k] == s.ids_along(front)[k]);
            } else {
                assert(all[k] == own[k - before]);
                assert(s.has_election(own[k - before]));
            }
        }
    }
}

impl ElectionSchema {
    /// Copies the elections with the addresses `ids`, in the order of `ids`.
    fn collect_elections(&self, ids: &Vec<ElectionAddress>) -> (list: Vec<Election>)
        requires
            forall|k: int| 0 <= k < ids@.len() ==> self@.has_election(#[trigger] ids@[k] as int),
        ensures
            elections_of(list@) == self@.elections_listed(ids_view(ids@)),
    {
        let entries = self.elections();
        let mut list: Vec<Election> = Vec::new();
        let mut i: usize = 0;
        while i < ids.len()
            invariant
                i <= ids.len(),
                list@.len() == i,
                elections_view(entries@) == self@.elections,
                forall|k: int|
                    0 <= k < ids@.len() ==> self@.has_election(#[trigger] ids@[k] as int),
                forall|k: int|
                    0 <= k < i ==> (#[trigger] list@[k])@ == self@.election(
                        ids@[k] as int,
                    ).election,
            decreases ids.len() - i,
        {
            let id = ids[i];
            assert(self@.has_election(ids@[i as int] as int));
            let at = self.election_index(id).unwrap();
            assert(entries@[at as int]@ == self@.elections[at as int]);
            list.push(entries[at].election.clone());
            i = i + 1;
        }
        assert(elections_of(list@) =~= self@.elections_listed(ids_view(ids@)));
        list
    }

    /// The elections that the administration `addr` issued itself, oldest
    /// first; `None` where there is no such administration.
    pub fn all_elections_of_administration(&self, addr: &AdministrationAddress) -> (found: Option<
        Vec<Election>,
    >)
        requires
            self.wf(),
        ensures
            match found {
                Some(list) => self@.has_administration(*addr) && elections_of(list@)
                    == self@.elections_listed(self@.administration(*addr).elections),
                None => !self@.has_administration(*addr),
            },
    {
        match self.election_ids_of_administration(addr) {
            Some(ids) => {
                proof {
                    lemma_find_administration(self@, *addr);
                    assert(ids_view(ids@) =~= self@.administration(*addr).elections);
                    assert forall|k: int| 0 <= k < ids@.len() implies self@.has_election(
                        #[trigger] ids@[k] as int,
                    ) by {
                        assert(self@.has_election(self@.administration(*addr).elections[k]));
                    }
                }
                Some(self.collect_elections(&ids))
            },
            None => None,
        }
    }

    /// The addresses of the elections visible from the administration `addr`:
    /// its own, oldest first, then those of its principal, and so on up to the
    /// root.
    pub fn election_ids_of_hierarchy(&self, addr: &AdministrationAddress) -> (found: Result<
        Vec<ElectionAddress>,
        QueryError,
    >)
        requires
            self.wf(),
        ensures
            match found {
                Ok(ids) => self@.has_administration(*addr) && self@.level(*addr)
                    <= MAX_RECURSION_DEPTH && ids_view(ids@) == self@.ids_along(
                    self@.lineage(*addr),
                ) && forall|k: int|
                    0 <= k < ids@.len() ==> self@.has_election(#[trigger] ids@[k] as int),
                Err(error) => if self@.has_administration(*addr) {
                    error == QueryError::RecursionLimitExceeded && self@.level(*addr)
                        > MAX_RECURSION_DEPTH
                } else {
                    error == QueryError::NotFound
                },
            },
    {
        let chain = match self.iter_principals(addr) {
            Ok(chain) => chain,
            Err(error) => {
                return Err(error);
            },
        };
        let ghost whole = self@.lineage(*addr);
        proof {
            lemma_walk(self@, *addr, (MAX_RECURSION_DEPTH + 1) as nat);
            lemma_ids_along(self@, whole);
        }
        let entries = self.administrations();
        let mut ids: Vec<ElectionAddress> = Vec::new();
        let mut k: usize = 0;
        while k < chain.len()
            invariant
                self.wf(),
                k <= chain.len(),
                administrations_of(chain@) == whole,
                administrations_view(entries@) == self@.administrations,
                forall|j: int|
                    0 <= j < whole.len() ==> self@.has_administration((#[trigger] whole[j]).addr),
                ids_view(ids@) == self@.ids_along(whole.take(k as int)),
            decreases chain.len() - k,
        {
            assert(chain@[k as int]@ == whole[k as int]);
            assert(self@.has_administration(whole[k as int].addr));
            proof {
                lemma_find_administration(self@, chain@[k as int].addr);
            }
            let at = self.administration_index(&chain[k].addr).unwrap();
            let own = &entries[at].elections;
            assert(entries@[at as int]@ == self@.administrations[at as int]);
            let ghost before = ids@;
            let mut j: usize = 0;
            while j < own.len()
                invariant
                    j <= own.len(),
                    ids@ == before + own@.take(j as int),
                decreases own.len() - j,
            {
                ids.push(own[j]);
                assert(own@.take(j as int + 1) =~= own@.take(j as int).push(own@[j as int]));
                assert(ids@ =~= before + own@.take(j as int + 1));
                j = j + 1;
            }
            proof {
                assert(own@.take(j as int) =~= own@);
                let grown = whole.take(k as int + 1);
                assert(grown.drop_last() =~= whole.take(k as int));
                assert(grown.last() == whole[k as int]);
                assert(ids_view(own@) =~= self@.administration(whole[k as int].addr).elections);
                assert(ids_view(ids@) =~= ids_view(before) + ids_view(own@));
            }
            k = k + 1;
        }
        proof {
            assert(whole.take(k as int) =~= whole);
            assert forall|i: int| 0 <= i < ids@.len() implies self@.has_election(
                #[trigger] ids@[i] as int,
            ) by {
                assert(ids_view(ids@)[i] == ids@[i] as int);
            }
        }
        Ok(ids)
    }

    /// The elections visible from the administration `addr`: its own and
    /// those of every administration above it.
    pub fn elections_of_administration_hierarchically(&self, addr: &AdministrationAddress) -> (found:
        Result<Vec<Election>, QueryError>)
        requires
            self.wf(),
        ensures
            match found {
                Ok(list) => self@.has_administration(*addr) && self@.level(*addr)
                    <= MAX_RECURSION_DEPTH && elections_of(list@) == self@.elections_of_hierarchy(
                    *addr,
                ),
                Err(error) => if self@.has_administration(*addr) {
                    error == QueryError::RecursionLimitExceeded && self@.level(*addr)
                        > MAX_RECURSION_DEPTH
                } else {
                    error == QueryError::NotFound
                },
            },
    {
        match self.election_ids_of_hierarchy(addr) {
            Ok(ids) => Ok(self.collect_elections(&ids)),
            Err(error) => Err(error),
        }
    }

    /// The elections visible from the administration `administration_pub_key`
    /// that are not cancelled and whose run overlaps the closed range from
    /// `from` to `to`.
    pub fn get_elections_in_range(
        &self,
        administration_pub_key: &AdministrationAddress,
        from: Timestamp,
        to: Timestamp,
    ) -> (found: Result<Vec<Election>, QueryError>)
        requires
            self.wf(),
        ensures
            match found {
                Ok(list) => self@.has_administration(*administration_pub_key) && self@.level(
                    *administration_pub_key,
                ) <= MAX_RECURSION_DEPTH && elections_of(list@) == self@.elections_in_range(
                    *administration_pub_key,
                    from,
                    to,
                ),
                Err(error) => if self@.has_administration(*administration_pub_key) {
                    error == QueryError::RecursionLimitExceeded && self@.level(
                        *administration_pub_key,
                    ) > MAX_RECURSION_DEPTH
                } else {
                    error == QueryError::NotFound
                },
            },
    {
        let visible = match self.elections_of_administration_hierarchically(
            administration_pub_key,
        ) {
            Ok(list) => list,
            Err(error) => {
                return Err(error);
            },
        };
        let ghost keep = |e: ElectionView| e.overlaps(from, to);
        let ghost all = elections_of(visible@);
        let mut list: Vec<Election> = Vec::new();
        let mut i: usize = 0;
        proof {
            lemma_filter_empty(keep);
            assert(all.take(0) =~= Seq::empty());
        }
        while i < visible.len()
            invariant
                i <= visible.len(),
                all == elections_of(visible@),
                keep == (|e: ElectionView| e.overlaps(from, to)),
                elections_of(list@) == all.take(i as int).filter(keep),
            decreases visible.len() - i,
        {
            proof {
                assert(all.take(i as int + 1) =~= all.take(i as int).push(all[i as int]));
                lemma_filter_push(all.take(i as int), all[i as int], keep);
            }
            if visible[i].overlaps(from, to) {
                let ghost before = elections_of(list@);
                list.push(visible[i].clone());
                assert(elections_of(list@) =~= before.push(all[i as int]));
            }
            i = i + 1;
        }
        assert(all.take(i as int) =~= all);
        Ok(list)
    }

    /// The elections visible from the administration `administration_pub_key`
    /// that take votes at `now`.
    pub fn active_elections(&self, administration_pub_key: &AdministrationAddress, now: Timestamp) -> (found:
        Result<Vec<Election>, QueryError>)
        requires
            self.wf(),
        ensures
            match found {
                Ok(list) => self@.has_administration(*administration_pub_key) && self@.level(
                    *administration_pub_key,
                ) <= MAX_RECURSION_DEPTH && elections_of(list@) == self@.elections_in_range(
                    *administration_pub_key,
                    now,
                    now,
                ),
                Err(error) => if self@.has_administration(*administration_pub_key) {
                    error == QueryError::RecursionLimitExceeded && self@.level(
                        *administration_pub_key,
                    ) > MAX_RECURSION_DEPTH
                } else {
                    error == QueryError::NotFound
                },
            },
    {
        self.get_elections_in_range(administration_pub_key, now, now)
    }

    /// The elections visible from the administration `administration_pub_key`
    /// that run at some time between `now` and one week later.
    pub fn available_elections(
        &self,
        administration_pub_key: &AdministrationAddress,
        now: Timestamp,
    ) -> (found: Result<Vec<Election>, QueryError>)
        requires
            self.wf(),
            now.shifted(SECONDS_PER_WEEK as int) is Some,
        ensures
            match found {
                Ok(list) => self@.has_administration(*administration_pub_key) && self@.level(
                    *administration_pub_key,
                ) <= MAX_RECURSION_DEPTH && elections_of(list@) == self@.elections_in_range(
                    *administration_pub_key,
                    now,
                    now.shifted(SECONDS_PER_WEEK as int).unwrap(),
                ),
                Err(error) => if self@.has_administration(*administration_pub_key) {
                    error == QueryError::RecursionLimitExceeded && self@.level(
                        *administration_pub_key,
                    ) > MAX_RECURSION_DEPTH
                } else {
                    error == QueryError::NotFound
                },
            },
    {
        let this_week = now.checked_add_seconds(SECONDS_PER_WEEK).unwrap();
        self.get_elections_in_range(administration_pub_key, now, this_week)
    }

    /// The elections that the administration `addr` issued itself and that
    /// take votes at `moment`; `None` where there is no such administration.
    pub fn elections_available_at_moment(
        &self,
        addr: &AdministrationAddress,
        moment: Timestamp,
    ) -> (found: Option<Vec<Election>>)
        requires
            self.wf(),
        ensures
            match found {
                Some(list) => self@.has_administration(*addr) && elections_of(list@)
                    == self@.elections_at_moment(*addr, moment),
                None => !self@.has_administration(*addr),
            },
    {
        let own = match self.all_elections_of_administration(addr) {
            Some(list) => list,
            None => {
                return None;
            },
        };
        let ghost keep = |e: ElectionView| e.is_active(moment);
        let ghost all = elections_of(own@);
        let mut list: Vec<Election> = Vec::new();
        let mut i: usize = 0;
        proof {
            lemma_filter_empty(keep);
            assert(all.take(0) =~= Seq::empty());
        }
        while i < own.len()
            invariant
                i <= own.len(),
                all == elections_of(own@),
                keep == (|e: ElectionView| e.is_active(moment)),
                elections_of(list@) == all.take(i as int).filter(keep),
            decreases own.len() - i,
        {
            proof {
                assert(all.take(i as int + 1) =~= all.take(i as int).push(all[i as int]));
                lemma_filter_push(all.take(i as int), all[i as int], keep);
            }
            if own[i].is_active(moment) {
                let ghost before = elections_of(list@);
                list.push(own[i].clone());
                assert(elections_of(list@) =~= before.push(all[i as int]));
            }
            i = i + 1;
        }
        assert(all.take(i as int) =~= all);
        Some(list)
    }

    /// The elections that the administration `addr` issued itself and that
    /// start or finish within the half-open range from `from` to `to`;
    /// `None` where there is no such administration.
    pub fn elections_available_on_time_range(
        &self,
        addr: &AdministrationAddress,
        from: Timestamp,
        to: Timestamp,
    ) -> (found: Option<Vec<Election>>)
        requires
            self.wf(),
        ensures
            match found {
                Some(list) => self@.has_administration(*addr) && elections_of(list@)
                    == self@.elections_turning_within(*addr, from, to),
                None => !self@.has_administration(*addr),
            },
    {
        let own = match self.all_elections_of_administration(addr) {
            Some(list) => list,
            None => {
                return None;
            },
        };
        let ghost keep = |e: ElectionView| e.turns_within(from, to);
        let ghost all = elections_of(own@);
        let mut list: Vec<Election> = Vec::new();
        let mut i: usize = 0;
        proof {
            lemma_filter_empty(keep);
            assert(all.take(0) =~= Seq::empty());
        }
        while i < own.len()
            invariant
                i <= own.len(),
                all == elections_of(own@),
                keep == (|e: ElectionView| e.turns_within(from, to)),
                elections_of(list@) == all.take(i as int).filter(keep),
            decreases own.len() - i,
        {
            proof {
                assert(all.take(i as int + 1) =~= all.take(i as int).push(all[i as int]));
                lemma_filter_push(all.take(i as int), all[i as int], keep);
            }
            if own[i].turns_within(from, to) {
                let ghost before = elections_of(list@);
                list.push(own[i].clone());
                assert(elections_of(list@) =~= before.push(all[i as int]));
            }
            i = i + 1;
        }
        assert(all.take(i as int) =~= all);
        Some(list)
    }

    /// The number of votes on record in the election `election_id`; zero
    /// where there is no such election.
    pub fn vote_count(&self, election_id: ElectionAddress) -> (count: usize)
        ensures
            count == self@.election_votes(election_id as int).len(),
    {
        match self.election_index(election_id) {
            Some(i) => {
                let entries = self.elections();
                assert(entries@[i as int]@ == self@.elections[i as int]);
                entries[i].votes.len()
            },
            None => 0,
        }
    }

    /// The standing of the election `election_id`: every declared option with
    /// the number of votes for it, zero included. `None` where there is no
    /// such election.
    pub fn election_results(&self, election_id: ElectionAddress) -> (found: Option<
        HashMap<ElectionOptionAddress, u32>,
    >)
        requires
            self.wf(),
            self@.election_votes(election_id as int).len() <= u32::MAX,
        ensures
            match found {
                Some(sum) => self@.has_election(election_id as int) && sum@
                    == self@.election_results(election_id as int),
                None => !self@.has_election(election_id as int),
            },
    {
        let at = match self.election_index(election_id) {
            Some(i) => i,
            None => {
                return None;
            },
        };
        let entries = self.elections();
        assert(entries@[at as int]@ == self@.elections[at as int]);
        assert(self@.election_wf(at as int));
        let entry = &entries[at];
        let ghost election = self@.elections[at as int].election;
        let ghost votes = self@.elections[at as int].votes;
        let size = entry.election.options.len();
        let mut counts: Vec<u32> = Vec::new();
        let mut o: usize = 0;
        while o < size
            invariant
                o <= size,
                counts@.len() == o,
                forall|k: int| 0 <= k < o ==> #[trigger] counts@[k] == 0,
            decreases size - o,
        {
            counts.push(0);
            o = o + 1;
        }
        let mut j: usize = 0;
        proof {
            assert(votes.take(0) =~= Seq::empty());
            assert forall|k: int| 0 <= k < size implies #[trigger] counts@[k] == count_votes(
                votes.take(0),
                k,
            ) by {
                lemma_filter_empty(|b: Ballot| b.option_id == k);
            }
        }
        while j < entry.votes.len()
            invariant
                j <= entry.votes.len() <= u32::MAX,
                votes == entry.votes@,
                counts@.len() == size,
                size == election.options.len(),
                forall|k: int|
                    0 <= k < votes.len() ==> 0 <= (#[trigger] votes[k]).option_id < size,
                forall|k: int|
                    0 <= k < size ==> #[trigger] counts@[k] == count_votes(votes.take(j as int), k),
                forall|k: int| 0 <= k < size ==> count_votes(votes.take(j as int), k) <= j,
            decreases entry.votes.len() - j,
        {
            let chosen = entry.votes[j].option_id as usize;
            assert(0 <= votes[j as int].option_id < size);
            let ghost before = counts@;
            proof {
                assert(votes.take(j as int + 1) =~= votes.take(j as int).push(votes[j as int]));
                assert forall|k: int| 0 <= k < size implies count_votes(
                    votes.take(j as int + 1),
                    k,
                ) == count_votes(votes.take(j as int), k) + if k == chosen {
                    1nat
                } else {
                    0nat
                } by {
                    lemma_filter_push(
                        votes.take(j as int),
                        votes[j as int],
                        |b: Ballot| b.option_id == k,
                    );
                }
            }
            assert(before[chosen as int] == count_votes(votes.take(j as int), chosen as int));
            let raised: u32 = counts[chosen] + 1;
            counts.set(chosen, raised);
            j = j + 1;
        }
        assert(votes.take(j as int) =~= votes);
        let mut sum: HashMap<ElectionOptionAddress, u32> = HashMap::new();
        let mut k: usize = 0;
        while k < size
            invariant
                k <= size,
                size == election.options.len(),
                size == entry.election.options@.len(),
                election == entry.election@,
                counts@.len() == size,
                forall|i: int| 0 <= i < size ==> (#[trigger] election.options[i]).id == i,
                forall|i: int| 0 <= i < size ==> #[trigger] counts@[i] == count_votes(votes, i),
                forall|option: ElectionOptionAddress|
                    sum@.contains_key(option) <==> 0 <= option < k,
                forall|option: ElectionOptionAddress|
                    0 <= option < k ==> #[trigger] sum@[option] == count_votes(
                        votes,
                        option as int,
                    ),
            decreases size - k,
        {
            assert(election.options[k as int].id == k);
            let id = entry.election.options[k].id;
            assert(entry.election.options@[k as int]@ == election.options[k as int]);
            sum.insert(id, counts[k]);
            k = k + 1;
        }
        proof {
            let target = self@.election_results(election_id as int);
            assert forall|option: ElectionOptionAddress| target.contains_key(option) <==> 0
                <= option < size by {
                if 0 <= option < size {
                    assert(election.options[option as int].id == option);
                }
            }
            assert(sum@ =~= target);
        }
        Some(sum)
    }
}

} // verus!
