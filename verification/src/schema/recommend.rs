//! Which administrations the ledger suggests to a participant.

use vstd::prelude::*;
use crate::crypto::Address;
use crate::model::time::{Timestamp, SECONDS_PER_DAY};
use crate::model::{AdministrationAddress, ParticipantAddress};
use crate::schema::elections::{lemma_filter_empty, lemma_filter_push};
use crate::schema::lemmas::{lemma_administration_at, lemma_find_participant};
use crate::schema::view::{AdministrationEntryView, SchemaView, TimePositionInfo};
use crate::schema::{administrations_view, ElectionSchema};

verus! {

/// How many days of location history count for a suggestion.
pub const RECENT_DAYS: i64 = 28;

/// How many entries of the location history count for a suggestion, at most.
pub const RECENT_LOCATIONS: usize = 30;

/// How far back, in seconds, the location history counts for a suggestion.
pub open spec fn recent_span() -> int {
    RECENT_DAYS * SECONDS_PER_DAY
}

/// The locations of the entries of `history` that are not older than `since`,
/// the latest first, `limit` of them at most.
pub open spec fn latest(history: Seq<TimePositionInfo>, since: Timestamp, limit: nat) -> Seq<
    Address,
>
    decreases history.len(),
{
    if history.len() == 0 || limit == 0 {
        Seq::empty()
    } else if since.not_after(history.last().time) {
        seq![history.last().location] + latest(history.drop_last(), since, (limit - 1) as nat)
    } else {
        latest(history.drop_last(), since, limit)
    }
}

/// The addresses of the administrations without a principal among the first
/// `upto` of the table, in table order.
pub open spec fn roots(administrations: Seq<AdministrationEntryView>, upto: nat) -> Seq<Address>
    decreases upto,
{
    if upto == 0 {
        Seq::empty()
    } else {
        let before = roots(administrations, (upto - 1) as nat);
        if upto <= administrations.len() && administrations[upto
            - 1].administration.principal_key is None {
            before.push(administrations[upto - 1].administration.addr)
        } else {
            before
        }
    }
}

/// The test for being the address `address`.
pub open spec fn same_as(address: Address) -> spec_fn(Address) -> bool {
    |a: Address| a == address
}

/// How often `address` occurs in `pool`.
pub open spec fn occurrences(pool: Seq<Address>, address: Address) -> nat {
    pool.filter(same_as(address)).len()
}

/// The addresses of `pool`, each once, in the order in which they first occur.
pub open spec fn distinct(pool: Seq<Address>) -> Seq<Address>
    decreases pool.len(),
{
    if pool.len() == 0 {
        Seq::empty()
    } else {
        let before = distinct(pool.drop_last());
        if before.contains(pool.last()) {
            before
        } else {
            before.push(pool.last())
        }
    }
}

/// The number of leading addresses of `ranked` that occur in `pool` at most
/// `count` times, where `ranked` is in ascending order of occurrence: the
/// place behind every address that does not occur more often.
pub open spec fn place_behind(ranked: Seq<Address>, pool: Seq<Address>, count: nat) -> int
    decreases ranked.len(),
{
    if ranked.len() == 0 {
        0
    } else if occurrences(pool, ranked.last()) <= count {
        ranked.len() as int
    } else {
        place_behind(ranked.drop_last(), pool, count)
    }
}

/// The addresses of `candidates` in ascending order of how often they occur
/// in `pool`; those that occur equally often keep the order that they have
/// in `candidates`.
pub open spec fn ranking(candidates: Seq<Address>, pool: Seq<Address>) -> Seq<Address>
    decreases candidates.len(),
{
    if candidates.len() == 0 {
        Seq::empty()
    } else {
        let before = ranking(candidates.drop_last(), pool);
        before.insert(
            place_behind(before, pool, occurrences(pool, candidates.last())),
            candidates.last(),
        )
    }
}

/// The first `count` elements of a list, or all of them where it has fewer.
pub open spec fn first_of<A>(list: Seq<A>, count: nat) -> Seq<A> {
    if list.len() <= count {
        list
    } else {
        list.take(count as int)
    }
}

impl SchemaView {
    /// The pool from which suggestions for the participant `key` are drawn at
    /// the time `now`: the administrations in which the participant was
    /// found during the last 28 days, the latest first and at most 30 of
    /// them; then the declared residence, if any; then every root
    /// administration.
    pub open spec fn suggestion_pool(self, key: ParticipantAddress, now: Timestamp) -> Seq<Address>
        recommends
            self.has_participant(key),
            now.shifted(-recent_span()) is Some,
    {
        let entry = self.participant(key);
        latest(entry.locations, now.shifted(-recent_span()).unwrap(), RECENT_LOCATIONS as nat) + (
        match entry.participant.residence {
            Some(residence) => seq![residence],
            None => Seq::empty(),
        }) + roots(self.administrations, self.administrations.len())
    }

    /// The administrations suggested to the participant `key` at the time
    /// `now`: every address of the pool once, those that occur least often
    /// first.
    pub open spec fn suggested(self, key: ParticipantAddress, now: Timestamp) -> Seq<Address> {
        ranking(distinct(self.suggestion_pool(key, now)), self.suggestion_pool(key, now))
    }

    /// The declared residence of the participant `key`, if there is one, is
    /// an administration of the ledger.
    pub open spec fn residence_known(self, key: ParticipantAddress) -> bool {
        self.has_participant(key) ==> match self.participant(key).participant.residence {
            Some(residence) => self.has_administration(residence),
            None => true,
        }
    }
}

/// A ranking is in ascending order of occurrence.
pub proof fn lemma_ranking_ascending(candidates: Seq<Address>, pool: Seq<Address>)
    ensures
        ranking(candidates, pool).len() == candidates.len(),
        forall|i: int, j: int|
            0 <= i < j < ranking(candidates, pool).len() ==> occurrences(
                pool,
                ranking(candidates, pool)[i],
            ) <= occurrences(pool, ranking(candidates, pool)[j]),
        forall|i: int|
            0 <= i < ranking(candidates, pool).len() ==> candidates.contains(
                #[trigger] ranking(candidates, pool)[i],
            ),
    decreases candidates.len(),
{
    if candidates.len() > 0 {
        let front = candidates.drop_last();
        lemma_ranking_ascending(front, pool);
        let before = ranking(front, pool);
        let count = occurrences(pool, candidates.last());
        lemma_place_behind(before, pool, count);
        let place = place_behind(before, pool, count);
        let after = before.insert(place, candidates.last());
        assert forall|i: int, j: int| 0 <= i < j < after.len() implies occurrences(pool, after[i])
            <= occurrences(pool, after[j]) by {
            if j < place {
                assert(after[i] == before[i] && after[j] == before[j]);
            } else if j == place {
                assert(after[i] == before[i]);
            } else if i < place {
                assert(after[i] == before[i] && after[j] == before[j - 1]);
            } else if i == place {
                assert(after[j] == before[j - 1]);
            } else {
                assert(after[i] == before[i - 1] && after[j] == before[j - 1]);
            }
        }
        assert forall|i: int| 0 <= i < after.len() implies candidates.contains(
            #[trigger] after[i],
        ) by {
            if i == place {
                assert(candidates[candidates.len() - 1] == after[i]);
            } else {
                let k = if i < place {
                    i
                } else {
                    i - 1
                };
                assert(after[i] == before[k]);
                assert(front.contains(before[k]));
                let w = choose|w: int| 0 <= w < front.len() && front[w] == before[k];
                assert(candidates[w] == before[k]);
            }
        }
    }
}

/// In a list in ascending order of occurrence, `place_behind` is the place
/// behind every address that occurs at most `count` times and before every
/// address that occurs more often.
pub proof fn lemma_place_behind(ranked: Seq<Address>, pool: Seq<Address>, count: nat)
    requires
        forall|i: int, j: int|
            0 <= i < j < ranked.len() ==> occurrences(pool, ranked[i]) <= occurrences(
                pool,
                ranked[j],
            ),
    ensures
        0 <= place_behind(ranked, pool, count) <= ranked.len(),
        forall|i: int|
            0 <= i < place_behind(ranked, pool, count) ==> occurrences(pool, #[trigger] ranked[i])
                <= count,
        forall|i: int|
            place_behind(ranked, pool, count) <= i < ranked.len() ==> occurrences(
                pool,
                #[trigger] ranked[i],
            ) > count,
    decreases ranked.len(),
{
    if ranked.len() > 0 {
        if occurrences(pool, ranked.last()) <= count {
            assert forall|i: int| 0 <= i < ranked.len() implies occurrences(
                pool,
                #[trigger] ranked[i],
            ) <= count by {
                if i < ranked.len() - 1 {
                    assert(occurrences(pool, ranked[i]) <= occurrences(
                        pool,
                        ranked[ranked.len() - 1],
                    ));
                }
            }
        } else {
            let front = ranked.drop_last();
            assert forall|i: int, j: int| 0 <= i < j < front.len() implies occurrences(
                pool,
                front[i],
            ) <= occurrences(pool, front[j]) by {
                assert(front[i] == ranked[i] && front[j] == ranked[j]);
            }
            lemma_place_behind(front, pool, count);
            let place = place_behind(front, pool, count);
            assert forall|i: int| 0 <= i < place implies occurrences(pool, #[trigger] ranked[i])
                <= count by {
                assert(front[i] == ranked[i]);
            }
            assert forall|i: int| place <= i < ranked.len() implies occurrences(
                pool,
                #[trigger] ranked[i],
            ) > count by {
                if i < front.len() {
                    assert(front[i] == ranked[i]);
                }
            }
        }
    }
}

/// One more address in the pool is one more occurrence of that address, and
/// of no other.
pub proof fn lemma_occurrences_push(pool: Seq<Address>, last: Address, address: Address)
    ensures
        occurrences(pool.push(last), address) == occurrences(pool, address) + if last == address {
            1nat
        } else {
            0nat
        },
        occurrences(Seq::empty(), address) == 0,
{
    lemma_filter_push(pool, last, same_as(address));
    lemma_filter_empty(same_as(address));
}

/// Counts how often `address` occurs in `pool`.
pub fn count_in(pool: &Vec<Address>, address: &Address) -> (count: usize)
    ensures
        count == occurrences(pool@, *address),
{
    let mut count: usize = 0;
    let mut i: usize = 0;
    proof {
        lemma_occurrences_push(pool@, *address, *address);
        assert(pool@.take(0) =~= Seq::empty());
    }
    while i < pool.len()
        invariant
            i <= pool.len(),
            count == occurrences(pool@.take(i as int), *address),
            count <= i,
        decreases pool.len() - i,
    {
        proof {
            assert(pool@.take(i as int + 1) =~= pool@.take(i as int).push(pool@[i as int]));
            lemma_occurrences_push(pool@.take(i as int), pool@[i as int], *address);
        }
        if pool[i] == *address {
            count = count + 1;
        }
        i = i + 1;
    }
    assert(pool@.take(i as int) =~= pool@);
    count
}

/// Tells whether `address` is among `list`.
fn is_among(list: &Vec<Address>, address: &Address) -> (among: bool)
    ensures
        among == list@.contains(*address),
{
    let mut i: usize = 0;
    while i < list.len()
        invariant
            i <= list.len(),
            forall|k: int| 0 <= k < i ==> list@[k] != *address,
        decreases list.len() - i,
    {
        if list[i] == *address {
            return true;
        }
        i = i + 1;
    }
    false
}

/// Lists every address of `pool` once, in the order of first occurrence.
pub fn distinct_of(pool: &Vec<Address>) -> (list: Vec<Address>)
    ensures
        list@ == distinct(pool@),
{
    let mut list: Vec<Address> = Vec::new();
    let mut i: usize = 0;
    assert(pool@.take(0) =~= Seq::empty());
    while i < pool.len()
        invariant
            i <= pool.len(),
            list@ == distinct(pool@.take(i as int)),
        decreases pool.len() - i,
    {
        assert(pool@.take(i as int + 1).drop_last() =~= pool@.take(i as int));
        if !is_among(&list, &pool[i]) {
            list.push(pool[i]);
        }
        i = i + 1;
    }
    assert(pool@.take(i as int) =~= pool@);
    list
}

/// Ranks `candidates` by how often they occur in `pool`, least often first,
/// and keeps the order of those that occur equally often.
fn rank(candidates: &Vec<Address>, pool: &Vec<Address>) -> (ranked: Vec<Address>)
    ensures
        ranked@ == ranking(candidates@, pool@),
{
    let mut ranked: Vec<Address> = Vec::new();
    let mut counts: Vec<usize> = Vec::new();
    let mut i: usize = 0;
    assert(candidates@.take(0) =~= Seq::empty());
    while i < candidates.len()
        invariant
            i <= candidates.len(),
            ranked@ == ranking(candidates@.take(i as int), pool@),
            counts@.len() == ranked@.len(),
            forall|k: int|
                0 <= k < ranked@.len() ==> #[trigger] counts@[k] == occurrences(pool@, ranked@[k]),
        decreases candidates.len() - i,
    {
        assert(candidates@.take(i as int + 1).drop_last() =~= candidates@.take(i as int));
        let count = count_in(pool, &candidates[i]);
        let mut place: usize = ranked.len();
        assert(ranked@.take(place as int) =~= ranked@);
        while place > 0 && counts[place - 1] > count
            invariant
                place <= ranked@.len(),
                counts@.len() == ranked@.len(),
                forall|k: int|
                    0 <= k < ranked@.len() ==> #[trigger] counts@[k] == occurrences(
                        pool@,
                        ranked@[k],
                    ),
                place_behind(ranked@, pool@, count as nat) == place_behind(
                    ranked@.take(place as int),
                    pool@,
                    count as nat,
                ),
            decreases place,
        {
            assert(ranked@.take(place as int).drop_last() =~= ranked@.take(place as int - 1));
            assert(ranked@.take(place as int).last() == ranked@[place as int - 1]);
            place = place - 1;
        }
        proof {
            if place > 0 {
                assert(ranked@.take(place as int).last() == ranked@[place as int - 1]);
            }
            assert(ranked@.take(ranked@.len() as int) =~= ranked@);
        }
        ranked.insert(place, candidates[i]);
        counts.insert(place, count);
        i = i + 1;
    }
    assert(candidates@.take(i as int) =~= candidates@);
    ranked
}

impl ElectionSchema {
    /// Tells whether the declared residence of the participant `key`, if
    /// there is one, is an administration of the ledger.
    pub fn residence_known(&self, key: &ParticipantAddress) -> (known: bool)
        requires
            self.wf(),
        ensures
            known == self@.residence_known(*key),
    {
        match self.participant(key) {
            Some(participant) => match participant.residence.0 {
                Some(residence) => self.administration(&residence).is_some(),
                None => true,
            },
            None => true,
        }
    }

    /// Collects the pool from which suggestions for the participant at index
    /// `at` are drawn, given the instant `since` from which on locations count.
    fn collect_pool(&self, at: usize, since: Timestamp) -> (pool: Vec<Address>)
        requires
            self.wf(),
            at < self@.participants.len(),
        ensures
            pool@ == latest(self@.participants[at as int].locations, since, RECENT_LOCATIONS as nat)
                + (match self@.participants[at as int].participant.residence {
                Some(residence) => seq![residence],
                None => Seq::empty(),
            }) + roots(self@.administrations, self@.administrations.len()),
            forall|k: int|
                0 <= k < pool@.len() ==> self@.has_administration(#[trigger] pool@[k]) || Some(
                    pool@[k],
                ) == self@.participants[at as int].participant.residence,
    {
        let participants = self.participants();
        assert(participants@[at as int]@ == self@.participants[at as int]);
        assert(self@.participant_wf(at as int));
        let entry = &participants[at];
        let ghost history = self@.participants[at as int].locations;
        let mut pool: Vec<Address> = Vec::new();
        let mut left: usize = entry.locations.len();
        assert(history.take(left as int) =~= history);
        while left > 0 && pool.len() < RECENT_LOCATIONS
            invariant
                left <= entry.locations@.len(),
                history == entry.locations@,
                pool@.len() <= RECENT_LOCATIONS,
                forall|k: int|
                    0 <= k < history.len() ==> self@.has_administration(
                        (#[trigger] history[k]).location,
                    ),
                forall|k: int| 0 <= k < pool@.len() ==> self@.has_administration(#[trigger] pool@[k]),
                latest(history, since, RECENT_LOCATIONS as nat) == pool@ + latest(
                    history.take(left as int),
                    since,
                    (RECENT_LOCATIONS - pool@.len()) as nat,
                ),
            decreases left,
        {
            let ghost part = history.take(left as int);
            assert(part.drop_last() =~= history.take(left as int - 1));
            assert(part.last() == history[left as int - 1]);
            left = left - 1;
            if since.is_not_after(&entry.locations[left].time) {
                let ghost before = pool@;
                pool.push(entry.locations[left].location);
                assert(before + (seq![history[left as int].location] + latest(
                    history.take(left as int),
                    since,
                    (RECENT_LOCATIONS - pool@.len()) as nat,
                )) =~= pool@ + latest(
                    history.take(left as int),
                    since,
                    (RECENT_LOCATIONS - pool@.len()) as nat,
                ));
            }
        }
        let ghost recent = pool@;
        assert(recent == latest(history, since, RECENT_LOCATIONS as nat)) by {
            assert(recent + Seq::<Address>::empty() =~= recent);
        }
        match entry.participant.residence.0 {
            Some(residence) => {
                pool.push(residence);
                assert(pool@ =~= recent + seq![residence]);
            },
            None => {
                assert(pool@ =~= recent + Seq::<Address>::empty());
            },
        }
        let ghost declared = pool@;
        let administrations = self.administrations();
        let ghost table = self@.administrations;
        let mut i: usize = 0;
        assert(pool@ =~= declared + roots(table, 0));
        while i < administrations.len()
            invariant
                self.wf(),
                i <= administrations.len(),
                administrations_view(administrations@) == table,
                table == self@.administrations,
                pool@ == declared + roots(table, i as nat),
                forall|k: int|
                    0 <= k < pool@.len() ==> self@.has_administration(#[trigger] pool@[k]) || Some(
                        pool@[k],
                    ) == self@.participants[at as int].participant.residence,
            decreases administrations.len() - i,
        {
            assert(administrations@[i as int]@ == table[i as int]);
            if administrations[i].administration.principal_key.0.is_none() {
                proof {
                    lemma_administration_at(self@, i as int);
                }
                pool.push(administrations[i].administration.addr);
                assert(pool@ =~= declared + roots(table, i as nat + 1));
            }
            i = i + 1;
        }
        pool
    }

    /// The administrations suggested to the participant `participant_addr`
    /// at the time `now`, the one that occurs least often in the pool first;
    /// `None` where there is no such participant.
    pub fn suggested_administrations_for(
        &self,
        participant_addr: &ParticipantAddress,
        now: Timestamp,
    ) -> (found: Option<Vec<AdministrationAddress>>)
        requires
            self.wf(),
            now.shifted(-recent_span()) is Some,
        ensures
            match found {
                Some(list) => self@.has_participant(*participant_addr) && list@
                    == self@.suggested(*participant_addr, now) && (self@.residence_known(
                    *participant_addr,
                ) ==> forall|k: int|
                    0 <= k < list@.len() ==> self@.has_administration(#[trigger] list@[k])),
                None => !self@.has_participant(*participant_addr),
            },
    {
        let at = match self.participant_index(participant_addr) {
            Some(i) => i,
            None => {
                return None;
            },
        };
        proof {
            lemma_find_participant(self@, *participant_addr);
        }
        let month_ago = now.checked_add_seconds(-(RECENT_DAYS * SECONDS_PER_DAY)).unwrap();
        let pool = self.collect_pool(at, month_ago);
        let candidates = distinct_of(&pool);
        let ranked = rank(&candidates, &pool);
        proof {
            lemma_ranking_ascending(candidates@, pool@);
            lemma_distinct_members(pool@);
            if self@.residence_known(*participant_addr) {
                assert forall|k: int| 0 <= k < ranked@.len() implies self@.has_administration(
                    #[trigger] ranked@[k],
                ) by {
                    assert(candidates@.contains(ranked@[k]));
                    assert(pool@.contains(ranked@[k]));
                    let w = choose|w: int| 0 <= w < pool@.len() && pool@[w] == ranked@[k];
                    assert(self@.has_administration(pool@[w]) || Some(pool@[w])
                        == self@.participants[at as int].participant.residence);
                }
            }
        }
        Some(ranked)
    }
}

/// Every address of `distinct(pool)` occurs in `pool`.
pub proof fn lemma_distinct_members(pool: Seq<Address>)
    ensures
        forall|a: Address| distinct(pool).contains(a) ==> pool.contains(a),
    decreases pool.len(),
{
    if pool.len() > 0 {
        let front = pool.drop_last();
        lemma_distinct_members(front);
        assert forall|a: Address| distinct(pool).contains(a) implies pool.contains(a) by {
            if distinct(front).contains(a) {
                assert(front.contains(a));
                let w = choose|w: int| 0 <= w < front.len() && front[w] == a;
                assert(pool[w] == a);
            } else {
                let w = choose|w: int| 0 <= w < distinct(pool).len() && distinct(pool)[w] == a;
                if w < distinct(front).len() {
                    assert(distinct(front)[w] == a);
                }
                assert(pool[pool.len() - 1] == a);
            }
        }
    }
}

} // verus!
