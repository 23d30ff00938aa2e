//! The hierarchy of administrations as a tree.

use vstd::prelude::*;
use crate::crypto::Address;
use crate::error::QueryError;
use crate::model::public_api::{forest_view, tree_view, Node, TreeView};
use crate::model::AdministrationAddress;
use crate::schema::hierarchy::{lemma_walk, MAX_RECURSION_DEPTH};
use crate::schema::lemmas::{lemma_administration_at, lemma_find_administration};
use crate::schema::view::{AdministrationEntryView, SchemaView};
use crate::schema::{administrations_view, AdministrationEntry, ElectionSchema};

verus! {

/// The administration at index `i` names `parent` as its principal; with
/// `None` for `parent`: it names none.
pub open spec fn belongs_to(
    table: Seq<AdministrationEntryView>,
    i: int,
    parent: Option<AdministrationAddress>,
) -> bool {
    table[i].administration.principal_key == parent
}

/// Some administration names `key` as its principal.
pub open spec fn has_children(table: Seq<AdministrationEntryView>, key: AdministrationAddress) -> bool {
    exists|j: int| 0 <= j < table.len() && #[trigger] belongs_to(table, j, Some(key))
}

/// The tree below `parent`, which stands at depth `depth - 1`, goes deeper
/// than a walk may follow it: some administration at depth
/// `MAX_RECURSION_DEPTH` has administrations below it.
pub open spec fn too_deep(
    table: Seq<AdministrationEntryView>,
    parent: Option<AdministrationAddress>,
    depth: nat,
) -> bool
    decreases MAX_RECURSION_DEPTH + 1 - depth,
{
    if depth > MAX_RECURSION_DEPTH {
        true
    } else {
        exists|i: int|
            0 <= i < table.len() && #[trigger] belongs_to(table, i, parent) && has_children(
                table,
                table[i].administration.addr,
            ) && too_deep(table, Some(table[i].administration.addr), depth + 1)
    }
}

/// The trees of the administrations that name `parent` as their principal,
/// among the first `upto` of the table and in table order. Each tree holds
/// the address and the name of its administration, and below it the trees of
/// the administrations that belong to it, if there are any.
pub open spec fn forest(
    table: Seq<AdministrationEntryView>,
    parent: Option<AdministrationAddress>,
    depth: nat,
    upto: nat,
) -> Seq<TreeView>
    decreases MAX_RECURSION_DEPTH + 1 - depth, upto,
{
    if depth > MAX_RECURSION_DEPTH || upto == 0 {
        Seq::empty()
    } else {
        let before = forest(table, parent, depth, (upto - 1) as nat);
        let i = upto - 1;
        if i < table.len() && belongs_to(table, i, parent) {
            let key = table[i].administration.addr;
            let value = table[i].administration.name;
            before.push(
                if has_children(table, key) {
                    TreeView::WithChildren {
                        key,
                        value,
                        children: forest(table, Some(key), depth + 1, table.len()),
                    }
                } else {
                    TreeView::WithoutChildren { key, value }
                },
            )
        } else {
            before
        }
    }
}

impl SchemaView {
    /// The hierarchy goes deeper than a walk may follow it.
    pub open spec fn tree_too_deep(self) -> bool {
        too_deep(self.administrations, None, 0)
    }

    /// The hierarchy as a list of trees, one for each root, in table order.
    pub open spec fn administration_tree(self) -> Seq<TreeView> {
        forest(self.administrations, None, 0, self.administrations.len())
    }
}

/// Where the tree below `parent` goes too deep, some administration stands
/// below level `MAX_RECURSION_DEPTH`.
pub proof fn lemma_too_deep_has_witness(
    s: SchemaView,
    parent: Option<AdministrationAddress>,
    depth: nat,
)
    requires
        s.wf(),
        depth <= MAX_RECURSION_DEPTH,
        match parent {
            None => depth == 0,
            Some(key) => s.has_administration(key) && s.level(key) + 1 == depth,
        },
        too_deep(s.administrations, parent, depth),
    ensures
        exists|key: AdministrationAddress|
            s.has_administration(key) && #[trigger] s.level(key) > MAX_RECURSION_DEPTH,
    decreases MAX_RECURSION_DEPTH - depth,
{
    let table = s.administrations;
    let i = choose|i: int|
        0 <= i < table.len() && #[trigger] belongs_to(table, i, parent) && has_children(
            table,
            table[i].administration.addr,
        ) && too_deep(table, Some(table[i].administration.addr), depth + 1);
    let here = table[i].administration.addr;
    lemma_administration_at(s, i);
    assert(s.administration_wf(i));
    assert(s.level(here) == depth);
    if depth == MAX_RECURSION_DEPTH {
        let j = choose|j: int| 0 <= j < table.len() && #[trigger] belongs_to(table, j, Some(here));
        lemma_administration_at(s, j);
        assert(s.administration_wf(j));
        assert(s.level(table[j].administration.addr) > MAX_RECURSION_DEPTH);
    } else {
        lemma_too_deep_has_witness(s, Some(here), depth + 1);
    }
}

/// Where an administration stands below level `MAX_RECURSION_DEPTH`, the
/// tree below the principal of each of its ancestors goes too deep.
pub proof fn lemma_deep_witness_is_too_deep(s: SchemaView, key: AdministrationAddress, above: nat)
    requires
        s.wf(),
        s.has_administration(key),
        s.level(key) > MAX_RECURSION_DEPTH,
        above <= MAX_RECURSION_DEPTH,
    ensures
        ({
            let chain = s.walk(Some(key), s.level(key) + 1);
            too_deep(s.administrations, chain[s.level(key) - above].principal_key, above)
        }),
    decreases MAX_RECURSION_DEPTH - above,
{
    let table = s.administrations;
    let level = s.level(key);
    lemma_walk(s, key, level + 1);
    let chain = s.walk(Some(key), level + 1);
    let ancestor = chain[level - above];
    let below = chain[level - above - 1];
    lemma_find_administration(s, ancestor.addr);
    lemma_find_administration(s, below.addr);
    let i = s.find_administration(ancestor.addr)->Some_0;
    let j = s.find_administration(below.addr)->Some_0;
    assert(belongs_to(table, i, ancestor.principal_key));
    assert(belongs_to(table, j, Some(ancestor.addr)));
    if above < MAX_RECURSION_DEPTH {
        lemma_deep_witness_is_too_deep(s, key, above + 1);
    }
    assert(too_deep(table, Some(table[i].administration.addr), above + 1));
}

/// Tells whether two optional addresses are the same.
fn same_principal(one: &Option<Address>, other: &Option<Address>) -> (same: bool)
    ensures
        same == (*one == *other),
{
    match (one, other) {
        (Some(a), Some(b)) => *a == *b,
        (None, None) => true,
        _ => false,
    }
}

/// Tells whether some administration names `key` as its principal.
fn any_child(entries: &Vec<AdministrationEntry>, key: &Address) -> (found: bool)
    ensures
        found == has_children(administrations_view(entries@), *key),
{
    let ghost table = administrations_view(entries@);
    let mut j: usize = 0;
    while j < entries.len()
        invariant
            j <= entries.len(),
            table == administrations_view(entries@),
            forall|k: int| 0 <= k < j ==> !#[trigger] belongs_to(table, k, Some(*key)),
        decreases entries.len() - j,
    {
        assert(entries@[j as int]@ == table[j as int]);
        if same_principal(&entries[j].administration.principal_key.0, &Some(*key)) {
            assert(belongs_to(table, j as int, Some(*key)));
            return true;
        }
        j = j + 1;
    }
    false
}

/// Builds the trees of the administrations that name `parent` as their
/// principal, `depth` levels below the roots.
fn map_recursively(
    entries: &Vec<AdministrationEntry>,
    parent: Option<Address>,
    depth: u32,
) -> (built: Result<Vec<Node<AdministrationAddress, String>>, QueryError>)
    requires
        depth <= MAX_RECURSION_DEPTH + 1,
    ensures
        match built {
            Ok(nodes) => !too_deep(administrations_view(entries@), parent, depth as nat)
                && forest_view(nodes@) == forest(
                administrations_view(entries@),
                parent,
                depth as nat,
                entries@.len(),
            ),
            Err(error) => error == QueryError::RecursionLimitExceeded && too_deep(
                administrations_view(entries@),
                parent,
                depth as nat,
            ),
        },
    decreases MAX_RECURSION_DEPTH + 1 - depth,
{
    if depth > MAX_RECURSION_DEPTH {
        return Err(QueryError::RecursionLimitExceeded);
    }
    let ghost table = administrations_view(entries@);
    let mut nodes: Vec<Node<AdministrationAddress, String>> = Vec::new();
    let mut i: usize = 0;
    assert(forest_view(nodes@) =~= forest(table, parent, depth as nat, 0));
    while i < entries.len()
        invariant
            i <= entries.len(),
            depth <= MAX_RECURSION_DEPTH,
            table == administrations_view(entries@),
            forest_view(nodes@) == forest(table, parent, depth as nat, i as nat),
            forall|k: int|
                0 <= k < i ==> !(#[trigger] belongs_to(table, k, parent) && has_children(
                    table,
                    table[k].administration.addr,
                ) && too_deep(table, Some(table[k].administration.addr), (depth + 1) as nat)),
        decreases entries.len() - i,
    {
        assert(entries@[i as int]@ == table[i as int]);
        let entry = &entries[i];
        if same_principal(&entry.administration.principal_key.0, &parent) {
            let key = entry.administration.addr;
            let ghost before = forest_view(nodes@);
            let node = if any_child(entries, &key) {
                let children = match map_recursively(entries, Some(key), depth + 1) {
                    Ok(children) => children,
                    Err(error) => {
                        assert(belongs_to(table, i as int, parent));
                        return Err(error);
                    },
                };
                let node = Node::WithChildren {
                    key,
                    value: entry.administration.name.clone(),
                    children,
                };
                assert(tree_view(node)->WithChildren_children =~= forest_view(children@));
                node
            } else {
                Node::WithoutChildren { key, value: entry.administration.name.clone() }
            };
            nodes.push(node);
            assert(forest_view(nodes@) =~= before.push(tree_view(node)));
        }
        i = i + 1;
    }
    Ok(nodes)
}

impl ElectionSchema {
    /// The hierarchy of administrations as a list of trees, one for each
    /// root, in table order. An administration with others below it is a
    /// node with the list of their trees, any other a node without a list.
    /// Fails with `RecursionLimitExceeded` where an administration at depth
    /// `MAX_RECURSION_DEPTH` has administrations below it.
    pub fn administration_tree(&self) -> (built: Result<
        Vec<Node<AdministrationAddress, String>>,
        QueryError,
    >)
        ensures
            match built {
                Ok(nodes) => !self@.tree_too_deep() && forest_view(nodes@)
                    == self@.administration_tree(),
                Err(error) => error == QueryError::RecursionLimitExceeded
                    && self@.tree_too_deep(),
            },
    {
        let entries = self.administrations();
        assert(administrations_view(entries@).len() == entries@.len());
        map_recursively(entries, None, 0)
    }
}

} // verus!
