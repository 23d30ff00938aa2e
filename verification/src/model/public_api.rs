//! The shapes in which queries are asked and answered.

use std::collections::HashMap;
use vstd::prelude::*;
use crate::crypto::Digest;
use crate::model::time::Timestamp;
use crate::model::wrappers::KeyMode;
use crate::model::{
    AdministrationAddress, Election, ElectionAddress, ElectionOption, ElectionOptionAddress,
    ElectionView,
};

verus! {

broadcast use vstd::std_specs::hash::group_hash_axioms;

/// A query for the entry under one key.
#[derive(Debug, Clone, Copy, PartialEq)]
pub struct KeyQuery<K> {
    pub key: K,
}

/// A query by the address of an author.
pub type PubKeyQuery = KeyQuery<AdministrationAddress>;

/// A query by the address of an election.
pub type I64Query = KeyQuery<ElectionAddress>;

/// What has to be assembled to answer a query for one record with proofs:
/// the proof for the table of that name, the proof for the key in the table,
/// read in the given mode, and, where the record exists, the proof for its
/// whole log together with the transactions that the log names.
#[derive(Debug)]
pub struct InfoRequest {
    /// The name of the table.
    pub index_name: String,
    /// How the table turns the key into a proof path.
    pub key_mode: KeyMode,
    /// The log of the record, oldest transaction first; `None` where the
    /// table has no record under the key.
    pub history: Option<Vec<Digest>>,
}

/// One option of an election as a client sees it.
#[derive(Debug)]
pub struct ElectionOptionConvert {
    pub id: ElectionOptionAddress,
    pub title: String,
    /// The number of votes for the option, where the client may see it.
    pub votes_count: Option<u32>,
}

/// An election as a client sees it.
#[derive(Debug)]
pub struct ElectionConvert {
    pub addr: ElectionAddress,
    pub name: String,
    pub start_date: Timestamp,
    pub finish_date: Timestamp,
    pub options: Vec<ElectionOptionConvert>,
    pub is_cancelled: bool,
    pub is_voted_yet: bool,
}

/// The elections of one administration.
#[derive(Debug)]
pub struct ElectionGroup {
    pub organization_name: String,
    pub elections: Vec<ElectionConvert>,
}

/// A node of a tree: with the list of its children, or without one.
#[derive(Debug)]
pub enum Node<K, V> {
    WithChildren { key: K, value: V, children: Vec<Node<K, V>> },
    WithoutChildren { key: K, value: V },
}

/// The mathematical content of an [`ElectionOptionConvert`].
pub struct ElectionOptionConvertView {
    pub id: int,
    pub title: Seq<char>,
    pub votes_count: Option<u32>,
}

/// The mathematical content of an [`ElectionConvert`].
pub struct ElectionConvertView {
    pub addr: int,
    pub name: Seq<char>,
    pub start_date: Timestamp,
    pub finish_date: Timestamp,
    pub options: Seq<ElectionOptionConvertView>,
    pub is_cancelled: bool,
    pub is_voted_yet: bool,
}

/// The mathematical content of an [`ElectionGroup`].
pub struct ElectionGroupView {
    pub organization_name: Seq<char>,
    pub elections: Seq<ElectionConvertView>,
}

/// The mathematical content of a tree of administrations: the address and
/// the name of each, and below it the trees of those that belong to it.
pub enum TreeView {
    WithChildren { key: AdministrationAddress, value: Seq<char>, children: Seq<TreeView> },
    WithoutChildren { key: AdministrationAddress, value: Seq<char> },
}

impl View for ElectionOptionConvert {
    type V = ElectionOptionConvertView;

    open spec fn view(&self) -> ElectionOptionConvertView {
        ElectionOptionConvertView {
            id: self.id as int,
            title: self.title@,
            votes_count: self.votes_count,
        }
    }
}

/// The contents of a list of options as clients see them.
pub open spec fn converted_options(options: Seq<ElectionOptionConvert>) -> Seq<
    ElectionOptionConvertView,
> {
    Seq::new(options.len(), |i: int| options[i]@)
}

impl View for ElectionConvert {
    type V = ElectionConvertView;

    open spec fn view(&self) -> ElectionConvertView {
        ElectionConvertView {
            addr: self.addr as int,
            name: self.name@,
            start_date: self.start_date,
            finish_date: self.finish_date,
            options: converted_options(self.options@),
            is_cancelled: self.is_cancelled,
            is_voted_yet: self.is_voted_yet,
        }
    }
}

/// The contents of a list of elections as clients see them.
pub open spec fn converted_elections(elections: Seq<ElectionConvert>) -> Seq<ElectionConvertView> {
    Seq::new(elections.len(), |i: int| elections[i]@)
}

impl View for ElectionGroup {
    type V = ElectionGroupView;

    open spec fn view(&self) -> ElectionGroupView {
        ElectionGroupView {
            organization_name: self.organization_name@,
            elections: converted_elections(self.elections@),
        }
    }
}

/// The content of a tree of administrations.
pub open spec fn tree_view(node: Node<AdministrationAddress, String>) -> TreeView
    decreases node,
{
    match node {
        Node::WithChildren { key, value, children } => TreeView::WithChildren {
            key,
            value: value@,
            children: Seq::new(
                children@.len(),
                |i: int|
                    if 0 <= i < children@.len() {
                        tree_view(children@[i])
                    } else {
                        TreeView::WithoutChildren { key, value: value@ }
                    },
            ),
        },
        Node::WithoutChildren { key, value } => TreeView::WithoutChildren { key, value: value@ },
    }
}

/// The contents of a list of trees of administrations.
pub open spec fn forest_view(nodes: Seq<Node<AdministrationAddress, String>>) -> Seq<TreeView> {
    Seq::new(nodes.len(), |i: int| tree_view(nodes[i]))
}

/// The number of votes that `results` gives for `id`: zero where it gives none.
pub open spec fn votes_for(results: Map<ElectionOptionAddress, u32>, id: int) -> u32 {
    if results.contains_key(id as i32) {
        results[id as i32]
    } else {
        0
    }
}

/// An election as a client sees it: every option with its count where
/// `results` are given, and without one where they are not.
pub open spec fn convert(
    election: ElectionView,
    is_voted_yet: bool,
    results: Option<Map<ElectionOptionAddress, u32>>,
) -> ElectionConvertView {
    ElectionConvertView {
        addr: election.addr,
        name: election.name,
        start_date: election.start_date,
        finish_date: election.finish_date,
        options: Seq::new(
            election.options.len(),
            |i: int|
                ElectionOptionConvertView {
                    id: election.options[i].id,
                    title: election.options[i].title,
                    votes_count: match results {
                        Some(counts) => Some(votes_for(counts, election.options[i].id)),
                        None => None,
                    },
                },
        ),
        is_cancelled: election.is_cancelled,
        is_voted_yet,
    }
}

impl ElectionOptionConvert {
    /// The option without a count.
    pub fn from_option(from: ElectionOption) -> (option: ElectionOptionConvert)
        ensures
            option@ == (ElectionOptionConvertView {
                id: from@.id,
                title: from@.title,
                votes_count: None,
            }),
    {
        ElectionOptionConvert { id: from.id, title: from.title, votes_count: None }
    }

    /// The option with the count `votes`.
    pub fn with_votes(from: ElectionOption, votes: u32) -> (option: ElectionOptionConvert)
        ensures
            option@ == (ElectionOptionConvertView {
                id: from@.id,
                title: from@.title,
                votes_count: Some(votes),
            }),
    {
        ElectionOptionConvert { id: from.id, title: from.title, votes_count: Some(votes) }
    }
}

impl ElectionConvert {
    /// Marks the election as one in which the client has voted.
    pub fn set_voted(&mut self)
        ensures
            final(self)@ == (ElectionConvertView { is_voted_yet: true, ..old(self)@ }),
    {
        self.is_voted_yet = true;
    }

    /// The election as a client sees it: with the count of each option where
    /// `results` are given, an option that they do not mention counting
    /// zero, and without counts where they are not.
    pub fn from_metadata(
        election: Election,
        is_voted_yet: bool,
        results: Option<&HashMap<ElectionOptionAddress, u32>>,
    ) -> (converted: ElectionConvert)
        ensures
            converted@ == convert(
                election@,
                is_voted_yet,
                match results {
                    Some(counts) => Some(counts@),
                    None => None,
                },
            ),
    {
        let ghost target = convert(
            election@,
            is_voted_yet,
            match results {
                Some(counts) => Some(counts@),
                None => None,
            },
        );
        let mut options: Vec<ElectionOptionConvert> = Vec::new();
        let mut i: usize = 0;
        while i < election.options.len()
            invariant
                i <= election.options.len(),
                options@.len() == i,
                target.options.len() == election.options@.len(),
                target == convert(
                    election@,
                    is_voted_yet,
                    match results {
                        Some(counts) => Some(counts@),
                        None => None,
                    },
                ),
                forall|k: int| 0 <= k < i ==> (#[trigger] options@[k])@ == target.options[k],
            decreases election.options.len() - i,
        {
            let option = election.options[i].clone();
            assert(option@ == election@.options[i as int]);
            let it = match results {
                Some(counts) => {
                    let result: u32 = match counts.get(&option.id) {
                        Some(count) => *count,
                        None => 0,
                    };
                    ElectionOptionConvert::with_votes(option, result)
                },
                None => ElectionOptionConvert::from_option(option),
            };
            options.push(it);
            i = i + 1;
        }
        let converted = ElectionConvert {
            addr: election.addr,
            name: election.name,
            start_date: election.start_date,
            finish_date: election.finish_date,
            options,
            is_cancelled: election.is_cancelled,
            is_voted_yet,
        };
        assert(converted@.options =~= target.options);
        converted
    }

    /// The election without counts, as one in which the client has not voted.
    pub fn from_election(from: Election) -> (converted: ElectionConvert)
        ensures
            converted@ == convert(from@, false, None),
    {
        ElectionConvert::from_metadata(from, false, None)
    }

    /// The election without counts.
    pub fn from_vote_status(from: Election, is_voted_yet: bool) -> (converted: ElectionConvert)
        ensures
            converted@ == convert(from@, is_voted_yet, None),
    {
        ElectionConvert::from_metadata(from, is_voted_yet, None)
    }

    /// The election with the counts that `results` give.
    pub fn from_results(
        from: Election,
        is_voted_yet: bool,
        results: &HashMap<ElectionOptionAddress, u32>,
    ) -> (converted: ElectionConvert)
        ensures
            converted@ == convert(from@, is_voted_yet, Some(results@)),
    {
        ElectionConvert::from_metadata(from, is_voted_yet, Some(results))
    }
}

} // verus!
