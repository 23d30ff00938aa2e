//! Election data models.

pub mod geo;
pub mod public_api;
pub mod time;
pub mod transactions;
pub mod wrappers;

use vstd::prelude::*;
use crate::crypto::{Address, Digest};
use crate::model::geo::{Polygon, PolygonView};
use crate::model::time::Timestamp;
use crate::model::transactions::CreateParticipant;
use crate::model::wrappers::OptionalContainer;

verus! {

/// The address of a participant.
pub type ParticipantAddress = Address;

/// The address of an administration.
pub type AdministrationAddress = Address;

/// The address of an election.
pub type ElectionAddress = i64;

/// The address of an option within its election.
pub type ElectionOptionAddress = i32;

/// A registered voter.
#[derive(Debug)]
pub struct Participant {
    /// Address of the participant.
    pub addr: ParticipantAddress,
    /// Name of the participant.
    pub name: String,
    /// Email of the participant.
    pub email: String,
    /// Personal phone number of the participant.
    pub phone_number: String,
    /// Pass code of the participant.
    pub pass_code: String,
    /// Address of the administration where the participant resides, if declared.
    pub residence: OptionalContainer<AdministrationAddress>,
    /// Length of the transaction history.
    pub history_len: u64,
    /// Commitment to the transaction history.
    pub history_hash: Digest,
}

/// A jurisdiction.
#[derive(Debug)]
pub struct Administration {
    /// Address of the administration.
    pub addr: AdministrationAddress,
    /// Name of the administration.
    pub name: String,
    /// Address of the administration that this one belongs to, if any.
    pub principal_key: OptionalContainer<AdministrationAddress>,
    /// The area that the administration governs.
    pub area: Polygon,
    /// Distance from the root of the hierarchy.
    pub administration_level: u32,
    /// Length of the transaction history.
    pub history_len: u64,
    /// Commitment to the transaction history.
    pub history_hash: Digest,
}

/// One choice of an election.
#[derive(Debug)]
pub struct ElectionOption {
    pub id: ElectionOptionAddress,
    pub title: String,
}

/// A time-boxed ballot issued by an administration.
#[derive(Debug)]
pub struct Election {
    /// Address of the election.
    pub addr: ElectionAddress,
    /// Address of the administration that issued it.
    pub issuer: AdministrationAddress,
    /// Name of the election.
    pub name: String,
    /// Reserved: no transaction sets it.
    pub is_cancelled: bool,
    /// The first instant at which votes are taken.
    pub start_date: Timestamp,
    /// The first instant at which votes are no longer taken.
    pub finish_date: Timestamp,
    /// The choices, in the order in which they were declared.
    pub options: Vec<ElectionOption>,
    /// Length of the transaction history.
    pub history_len: u64,
    /// Commitment to the transaction history.
    pub history_hash: Digest,
}

/// The mathematical content of a [`Participant`].
pub struct ParticipantView {
    pub addr: ParticipantAddress,
    pub name: Seq<char>,
    pub email: Seq<char>,
    pub phone_number: Seq<char>,
    pub pass_code: Seq<char>,
    pub residence: Option<AdministrationAddress>,
    pub history_len: nat,
    pub history_hash: Digest,
}

/// The mathematical content of an [`Administration`].
pub struct AdministrationView {
    pub addr: AdministrationAddress,
    pub name: Seq<char>,
    pub principal_key: Option<AdministrationAddress>,
    pub area: PolygonView,
    pub administration_level: nat,
    pub history_len: nat,
    pub history_hash: Digest,
}

/// The mathematical content of an [`ElectionOption`].
pub struct ElectionOptionView {
    pub id: int,
    pub title: Seq<char>,
}

/// The mathematical content of an [`Election`].
pub struct ElectionView {
    pub addr: int,
    pub issuer: AdministrationAddress,
    pub name: Seq<char>,
    pub is_cancelled: bool,
    pub start_date: Timestamp,
    pub finish_date: Timestamp,
    pub options: Seq<ElectionOptionView>,
    pub history_len: nat,
    pub history_hash: Digest,
}

impl View for Participant {
    type V = ParticipantView;

    open spec fn view(&self) -> ParticipantView {
        ParticipantView {
            addr: self.addr,
            name: self.name@,
            email: self.email@,
            phone_number: self.phone_number@,
            pass_code: self.pass_code@,
            residence: self.residence.0,
            history_len: self.history_len as nat,
            history_hash: self.history_hash,
        }
    }
}

impl View for Administration {
    type V = AdministrationView;

    open spec fn view(&self) -> AdministrationView {
        AdministrationView {
            addr: self.addr,
            name: self.name@,
            principal_key: self.principal_key.0,
            area: self.area@,
            administration_level: self.administration_level as nat,
            history_len: self.history_len as nat,
            history_hash: self.history_hash,
        }
    }
}

impl View for ElectionOption {
    type V = ElectionOptionView;

    open spec fn view(&self) -> ElectionOptionView {
        ElectionOptionView { id: self.id as int, title: self.title@ }
    }
}

/// The contents of a list of options.
pub open spec fn options_view(options: Seq<ElectionOption>) -> Seq<ElectionOptionView> {
    Seq::new(options.len(), |i: int| options[i]@)
}

impl View for Election {
    type V = ElectionView;

    open spec fn view(&self) -> ElectionView {
        ElectionView {
            addr: self.addr as int,
            issuer: self.issuer,
            name: self.name@,
            is_cancelled: self.is_cancelled,
            start_date: self.start_date,
            finish_date: self.finish_date,
            options: options_view(self.options@),
            history_len: self.history_len as nat,
            history_hash: self.history_hash,
        }
    }
}

impl ElectionView {
    /// Votes are taken at `moment`: the election is not cancelled and `moment`
    /// lies in the half-open interval from the start to the finish.
    pub open spec fn is_active(self, moment: Timestamp) -> bool {
        !self.is_cancelled && self.start_date.not_after(moment) && moment.precedes(
            self.finish_date,
        )
    }

    /// The election is not cancelled and `moment` is earlier than its start.
    pub open spec fn not_started_yet(self, moment: Timestamp) -> bool {
        !self.is_cancelled && moment.precedes(self.start_date)
    }

    /// The election is not cancelled and its run overlaps the closed range
    /// from `from` to `to`.
    pub open spec fn overlaps(self, from: Timestamp, to: Timestamp) -> bool {
        !self.is_cancelled && self.start_date.not_after(to) && from.precedes(self.finish_date)
    }

    /// The election is not cancelled and starts or finishes within the
    /// half-open range from `from` to `to`.
    pub open spec fn turns_within(self, from: Timestamp, to: Timestamp) -> bool {
        !self.is_cancelled && ((from.not_after(self.start_date) && self.start_date.precedes(to))
            || (from.not_after(self.finish_date) && self.finish_date.precedes(to)))
    }

    /// Some option of the election has the identifier `id`.
    pub open spec fn has_option(self, id: int) -> bool {
        exists|i: int| 0 <= i < self.options.len() && (#[trigger] self.options[i]).id == id
    }
}

impl Participant {
    /// Creates a new participant record.
    pub fn new(
        addr: &ParticipantAddress,
        name: &str,
        email: &str,
        phone_number: &str,
        pass_code: &str,
        residence: &Option<AdministrationAddress>,
        history_len: u64,
        history_hash: &Digest,
    ) -> (participant: Participant)
        ensures
            participant@ == (ParticipantView {
                addr: *addr,
                name: name@,
                email: email@,
                phone_number: phone_number@,
                pass_code: pass_code@,
                residence: *residence,
                history_len: history_len as nat,
                history_hash: *history_hash,
            }),
    {
        Participant {
            addr: *addr,
            name: name.to_owned(),
            email: email.to_owned(),
            phone_number: phone_number.to_owned(),
            pass_code: pass_code.to_owned(),
            residence: OptionalContainer(*residence),
            history_len,
            history_hash: *history_hash,
        }
    }

    /// Creates the record of the participant that `transaction` registers.
    pub fn from_transaction(
        addr: &ParticipantAddress,
        transaction: CreateParticipant,
        history_len: u64,
        history_hash: &Digest,
    ) -> (participant: Participant)
        ensures
            participant@ == (ParticipantView {
                addr: *addr,
                name: transaction.name@,
                email: transaction.email@,
                phone_number: transaction.phone_number@,
                pass_code: transaction.pass_code@,
                residence: transaction.residence.0,
                history_len: history_len as nat,
                history_hash: *history_hash,
            }),
    {
        Participant {
            addr: *addr,
            name: transaction.name,
            email: transaction.email,
            phone_number: transaction.phone_number,
            pass_code: transaction.pass_code,
            residence: transaction.residence,
            history_len,
            history_hash: *history_hash,
        }
    }
}

impl Clone for Participant {
    fn clone(&self) -> (copy: Participant)
        ensures
            copy@ == self@,
    {
        Participant {
            addr: self.addr,
            name: self.name.clone(),
            email: self.email.clone(),
            phone_number: self.phone_number.clone(),
            pass_code: self.pass_code.clone(),
            residence: OptionalContainer(self.residence.0),
            history_len: self.history_len,
            history_hash: self.history_hash,
        }
    }
}

impl Administration {
    /// Creates a new administration record.
    pub fn new(
        addr: &AdministrationAddress,
        name: &str,
        principal_key: &Option<AdministrationAddress>,
        area: &Polygon,
        administration_level: u32,
        history_len: u64,
        history_hash: &Digest,
    ) -> (administration: Administration)
        ensures
            administration@ == (AdministrationView {
                addr: *addr,
                name: name@,
                principal_key: *principal_key,
                area: area@,
                administration_level: administration_level as nat,
                history_len: history_len as nat,
                history_hash: *history_hash,
            }),
    {
        Administration {
            addr: *addr,
            name: name.to_owned(),
            principal_key: OptionalContainer(*principal_key),
            area: area.clone(),
            administration_level,
            history_len,
            history_hash: *history_hash,
        }
    }
}

impl Clone for Administration {
    fn clone(&self) -> (copy: Administration)
        ensures
            copy@ == self@,
    {
        Administration {
            addr: self.addr,
            name: self.name.clone(),
            principal_key: OptionalContainer(self.principal_key.0),
            area: self.area.clone(),
            administration_level: self.administration_level,
            history_len: self.history_len,
            history_hash: self.history_hash,
        }
    }
}

impl Clone for ElectionOption {
    fn clone(&self) -> (copy: ElectionOption)
        ensures
            copy@ == self@,
    {
        ElectionOption { id: self.id, title: self.title.clone() }
    }
}

/// Copies a list of options.
pub fn clone_options(options: &Vec<ElectionOption>) -> (copy: Vec<ElectionOption>)
    ensures
        options_view(copy@) == options_view(options@),
{
    let mut copy: Vec<ElectionOption> = Vec::new();
    let mut i: usize = 0;
    while i < options.len()
        invariant
            i <= options.len(),
            copy@.len() == i,
            forall|j: int| 0 <= j < i ==> (#[trigger] copy@[j])@ == options@[j]@,
        decreases options.len() - i,
    {
        copy.push(options[i].clone());
        i = i + 1;
    }
    assert(options_view(copy@) =~= options_view(options@));
    copy
}

impl Election {
    /// Creates the record of a newly issued election: not cancelled, with
    /// copies of the given options.
    pub fn new(
        addr: ElectionAddress,
        issuer: &AdministrationAddress,
        name: &str,
        start_date: &Timestamp,
        finish_date: &Timestamp,
        options: &Vec<ElectionOption>,
        history_len: u64,
        history_hash: &Digest,
    ) -> (election: Election)
        ensures
            election@ == (ElectionView {
                addr: addr as int,
                issuer: *issuer,
                name: name@,
                is_cancelled: false,
                start_date: *start_date,
                finish_date: *finish_date,
                options: options_view(options@),
                history_len: history_len as nat,
                history_hash: *history_hash,
            }),
    {
        Election {
            addr,
            issuer: *issuer,
            name: name.to_owned(),
            is_cancelled: false,
            start_date: *start_date,
            finish_date: *finish_date,
            options: clone_options(options),
            history_len,
            history_hash: *history_hash,
        }
    }

    /// Tells whether votes are taken at `moment`.
    pub fn is_active(&self, moment: Timestamp) -> (active: bool)
        ensures
            active == self@.is_active(moment),
    {
        !self.is_cancelled && self.start_date.is_not_after(&moment) && moment.is_before(
            &self.finish_date,
        )
    }

    /// Tells whether the election has yet to start at `moment`.
    pub fn not_started_yet(&self, moment: Timestamp) -> (early: bool)
        ensures
            early == self@.not_started_yet(moment),
    {
        !self.is_cancelled && moment.is_before(&self.start_date)
    }

    /// Tells whether the run of the election overlaps the closed range from
    /// `from` to `to`.
    pub fn overlaps(&self, from: Timestamp, to: Timestamp) -> (overlapping: bool)
        ensures
            overlapping == self@.overlaps(from, to),
    {
        !self.is_cancelled && self.start_date.is_not_after(&to) && from.is_before(
            &self.finish_date,
        )
    }

    /// Tells whether the election starts or finishes within the half-open
    /// range from `from` to `to`.
    pub fn turns_within(&self, from: Timestamp, to: Timestamp) -> (turning: bool)
        ensures
            turning == self@.turns_within(from, to),
    {
        !self.is_cancelled && ((from.is_not_after(&self.start_date) && self.start_date.is_before(
            &to,
        )) || (from.is_not_after(&self.finish_date) && self.finish_date.is_before(&to)))
    }

    /// Tells whether the election declares an option with the identifier `id`.
    pub fn has_option(&self, id: ElectionOptionAddress) -> (declared: bool)
        ensures
            declared == self@.has_option(id as int),
    {
        let mut i: usize = 0;
        while i < self.options.len()
            invariant
                i <= self.options.len(),
                forall|j: int| 0 <= j < i ==> (#[trigger] self@.options[j]).id != id,
            decreases self.options.len() - i,
        {
            if self.options[i].id == id {
                assert(self@.options[i as int].id == id);
                return true;
            }
            i = i + 1;
        }
        false
    }
}

impl Clone for Election {
    fn clone(&self) -> (copy: Election)
        ensures
            copy@ == self@,
    {
        Election {
            addr: self.addr,
            issuer: self.issuer,
            name: self.name.clone(),
            is_cancelled: self.is_cancelled,
            start_date: self.start_date,
            finish_date: self.finish_date,
            options: clone_options(&self.options),
            history_len: self.history_len,
            history_hash: self.history_hash,
        }
    }
}

} // verus!
