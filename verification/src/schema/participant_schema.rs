//! What the ledger tells about its participants: who they are, and where
//! they were found, and how often.

use vstd::prelude::*;
use crate::crypto::Address;
use crate::model::{AdministrationAddress, Participant, ParticipantAddress};
use crate::schema::lemmas::lemma_find_participant;
use crate::schema::recommend::{count_in, distinct, distinct_of, occurrences, same_as};
use crate::schema::view::TimePositionInfo;
use crate::schema::{participants_view, ElectionSchema};

verus! {

/// A decimal number: `mantissa` divided by ten to the power of `scale`.
#[derive(Clone, Copy, Debug, PartialEq, Eq, Structural)]
pub struct Weight {
    pub mantissa: i128,
    pub scale: u32,
}

/// How often a participant was found in an administration.
#[derive(Clone, Copy, Debug, PartialEq, Eq, Structural)]
pub struct LocationCount {
    pub location: AdministrationAddress,
    pub count: u64,
}

/// The share of a participant's locations that lie in an administration.
#[derive(Clone, Copy, Debug, PartialEq, Eq, Structural)]
pub struct LocationWeight {
    pub location: AdministrationAddress,
    pub weight: Weight,
}

/// The decimal number that `rust_decimal` gives for `count` divided by
/// `total`: the quotient, rounded to the digits that its `Decimal` holds.
pub uninterp spec fn decimal_quotient(count: u64, total: u64) -> Weight;

/// Divides `Decimal::from(count)` by `Decimal::from(total)` with the `/` of
/// `rust_decimal::Decimal`, and takes the result apart with `mantissa` and
/// `scale`. The result depends on the two numbers alone; a `total` of zero,
/// on which the division panics, is left out.
#[verifier::external_body]
fn decimal_ratio(count: u64, total: u64) -> (weight: Weight)
    requires
        total > 0,
    ensures
        weight == decimal_quotient(count, total),
{
    let ratio = rust_decimal::Decimal::from(count) / rust_decimal::Decimal::from(total);
    Weight { mantissa: ratio.mantissa(), scale: ratio.scale() }
}

/// The administrations of a location history, in the order of the history.
pub open spec fn visited(history: Seq<TimePositionInfo>) -> Seq<Address> {
    Seq::new(history.len(), |i: int| history[i].location)
}

/// How often each administration occurs in `visits`: one entry for each, in
/// the order in which they first occur.
pub open spec fn counted(visits: Seq<Address>) -> Seq<LocationCount> {
    Seq::new(
        distinct(visits).len(),
        |i: int|
            LocationCount {
                location: distinct(visits)[i],
                count: occurrences(visits, distinct(visits)[i]) as u64,
            },
    )
}

/// The share of each entry of `counts` in `total`.
pub open spec fn weighted(counts: Seq<LocationCount>, total: u64) -> Seq<LocationWeight> {
    Seq::new(
        counts.len(),
        |i: int|
            LocationWeight {
                location: counts[i].location,
                weight: decimal_quotient(counts[i].count, total),
            },
    )
}

/// Counts how often each administration occurs in `visits`.
pub fn count_locations(visits: &Vec<Address>) -> (counts: Vec<LocationCount>)
    ensures
        counts@ == counted(visits@),
        forall|i: int| 0 <= i < counts@.len() ==> (#[trigger] counts@[i]).count <= visits@.len(),
{
    let places = distinct_of(visits);
    let mut counts: Vec<LocationCount> = Vec::new();
    let mut i: usize = 0;
    while i < places.len()
        invariant
            i <= places.len(),
            places@ == distinct(visits@),
            counts@.len() == i,
            forall|k: int| 0 <= k < i ==> #[trigger] counts@[k] == counted(visits@)[k],
            forall|k: int| 0 <= k < i ==> (#[trigger] counts@[k]).count <= visits@.len(),
        decreases places.len() - i,
    {
        let count = count_in(visits, &places[i]);
        proof {
            visits@.lemma_filter_len(same_as(places@[i as int]));
        }
        counts.push(LocationCount { location: places[i], count: count as u64 });
        i = i + 1;
    }
    assert(counts@ =~= counted(visits@));
    counts
}

/// Gives each entry of `counts` its share in `total`.
pub fn weigh_locations(counts: &Vec<LocationCount>, total: u64) -> (weights: Vec<LocationWeight>)
    requires
        total > 0,
    ensures
        weights@ == weighted(counts@, total),
{
    let mut weights: Vec<LocationWeight> = Vec::new();
    let mut i: usize = 0;
    while i < counts.len()
        invariant
            i <= counts.len(),
            total > 0,
            weights@.len() == i,
            forall|k: int| 0 <= k < i ==> #[trigger] weights@[k] == weighted(counts@, total)[k],
        decreases counts.len() - i,
    {
        weights.push(
            LocationWeight {
                location: counts[i].location,
                weight: decimal_ratio(counts[i].count, total),
            },
        );
        i = i + 1;
    }
    assert(weights@ =~= weighted(counts@, total));
    weights
}

impl ElectionSchema {
    /// Copies of all participants, in the order of their addresses.
    pub fn all_participants(&self) -> (list: Vec<Participant>)
        ensures
            list@.len() == self@.participants.len(),
            forall|i: int|
                0 <= i < list@.len() ==> (#[trigger] list@[i])@ == self@.participants[i].participant,
    {
        let entries = self.participants();
        let mut list: Vec<Participant> = Vec::new();
        let mut i: usize = 0;
        while i < entries.len()
            invariant
                i <= entries.len(),
                participants_view(entries@) == self@.participants,
                list@.len() == i,
                forall|k: int|
                    0 <= k < i ==> (#[trigger] list@[k])@ == self@.participants[k].participant,
            decreases entries.len() - i,
        {
            assert(entries@[i as int]@ == self@.participants[i as int]);
            list.push(entries[i].participant.clone());
            i = i + 1;
        }
        list
    }

    /// How often the participant `addr` was found in each administration,
    /// one entry for each administration in the order in which the
    /// participant was first found there; `None` where there is no such
    /// participant.
    pub fn location_counts(&self, addr: &ParticipantAddress) -> (found: Option<Vec<LocationCount>>)
        requires
            self.wf(),
        ensures
            match found {
                Some(counts) => self@.has_participant(*addr) && counts@ == counted(
                    visited(self@.participant(*addr).locations),
                ),
                None => !self@.has_participant(*addr),
            },
    {
        let at = match self.participant_index(addr) {
            Some(i) => i,
            None => {
                return None;
            },
        };
        proof {
            lemma_find_participant(self@, *addr);
        }
        let entries = self.participants();
        assert(entries@[at as int]@ == self@.participants[at as int]);
        let history = &entries[at].locations;
        let mut visits: Vec<Address> = Vec::new();
        let mut i: usize = 0;
        while i < history.len()
            invariant
                i <= history.len(),
                visits@.len() == i,
                forall|k: int| 0 <= k < i ==> #[trigger] visits@[k] == history@[k].location,
            decreases history.len() - i,
        {
            visits.push(history[i].location);
            i = i + 1;
        }
        assert(visits@ =~= visited(history@));
        Some(count_locations(&visits))
    }

    /// The share of the locations of the participant `addr` that lie in each
    /// administration, one entry for each administration in the order in
    /// which the participant was first found there; `None` where there is
    /// no such participant.
    pub fn location_history_with_weight(&self, addr: &ParticipantAddress) -> (found: Option<
        Vec<LocationWeight>,
    >)
        requires
            self.wf(),
        ensures
            match found {
                Some(weights) => self@.has_participant(*addr) && weights@ == weighted(
                    counted(visited(self@.participant(*addr).locations)),
                    self@.participant(*addr).locations.len() as u64,
                ),
                None => !self@.has_participant(*addr),
            },
    {
        let counts = match self.location_counts(addr) {
            Some(counts) => counts,
            None => {
                return None;
            },
        };
        let total = self.participant_location_history(addr).len() as u64;
        if total == 0 {
            proof {
                let visits = visited(self@.participant(*addr).locations);
                assert(visits =~= Seq::empty());
                assert(distinct(visits) =~= Seq::empty());
                assert(counts@ =~= Seq::empty());
                assert(weighted(counts@, total) =~= Seq::empty());
            }
            return Some(Vec::new());
        }
        Some(weigh_locations(&counts, total))
    }
}

} // verus!
