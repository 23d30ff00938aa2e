//! Tables ordered by address: how a key is found and where a new one goes.

use vstd::prelude::*;
use crate::crypto::{lemma_rank_injective, Address};

verus! {

/// The keys come in strictly increasing order, so none occurs twice.
pub open spec fn strictly_increasing(keys: Seq<Address>) -> bool {
    forall|i: int, j: int| 0 <= i < j < keys.len() ==> keys[i].rank() < keys[j].rank()
}

/// The number of leading keys that come before `key`: the place where `key`
/// stands, or would stand, in an ordered table.
pub open spec fn lower_bound(keys: Seq<Address>, key: Address) -> int
    decreases keys.len(),
{
    if keys.len() == 0 {
        0
    } else if keys.last().rank() < key.rank() {
        keys.len() as int
    } else {
        lower_bound(keys.drop_last(), key)
    }
}

/// The index at which `key` stands in an ordered table, if it is there.
pub open spec fn find(keys: Seq<Address>, key: Address) -> Option<int> {
    let place = lower_bound(keys, key);
    if 0 <= place < keys.len() && keys[place] == key {
        Some(place)
    } else {
        None
    }
}

/// `place` splits the keys into those before `key` and those not before it.
pub open spec fn splits_at(keys: Seq<Address>, key: Address, place: int) -> bool {
    &&& 0 <= place <= keys.len()
    &&& forall|i: int| 0 <= i < place ==> (#[trigger] keys[i]).rank() < key.rank()
    &&& forall|i: int| place <= i < keys.len() ==> key.rank() <= (#[trigger] keys[i]).rank()
}

/// In an ordered table the lower bound splits the keys.
pub proof fn lemma_lower_bound_splits(keys: Seq<Address>, key: Address)
    requires
        strictly_increasing(keys),
    ensures
        splits_at(keys, key, lower_bound(keys, key)),
    decreases keys.len(),
{
    if keys.len() > 0 && !(keys.last().rank() < key.rank()) {
        let front = keys.drop_last();
        assert(strictly_increasing(front)) by {
            assert forall|i: int, j: int| 0 <= i < j < front.len() implies front[i].rank()
                < front[j].rank() by {
                assert(front[i] == keys[i] && front[j] == keys[j]);
            }
        }
        lemma_lower_bound_splits(front, key);
        let place = lower_bound(front, key);
        assert forall|i: int| 0 <= i < place implies (#[trigger] keys[i]).rank() < key.rank() by {
            assert(front[i] == keys[i]);
        }
        assert forall|i: int| place <= i < keys.len() implies key.rank() <= (
        #[trigger] keys[i]).rank() by {
            if i < front.len() {
                assert(front[i] == keys[i]);
            }
        }
    }
}

/// Only one place splits the keys of an ordered table.
pub proof fn lemma_split_is_lower_bound(keys: Seq<Address>, key: Address, place: int)
    requires
        strictly_increasing(keys),
        splits_at(keys, key, place),
    ensures
        place == lower_bound(keys, key),
{
    lemma_lower_bound_splits(keys, key);
    let bound = lower_bound(keys, key);
    if place < bound {
        assert(keys[place].rank() < key.rank());
    } else if bound < place {
        assert(keys[bound].rank() < key.rank());
    }
}

/// `find` tells the truth about an ordered table: it returns the index of the
/// key, and `None` only where no index holds the key.
pub proof fn lemma_find_sound(keys: Seq<Address>, key: Address)
    requires
        strictly_increasing(keys),
    ensures
        match find(keys, key) {
            Some(i) => 0 <= i < keys.len() && keys[i] == key,
            None => forall|i: int| 0 <= i < keys.len() ==> keys[i] != key,
        },
{
    lemma_lower_bound_splits(keys, key);
    let place = lower_bound(keys, key);
    if find(keys, key) is None {
        assert forall|i: int| 0 <= i < keys.len() implies keys[i] != key by {
            if keys[i] == key {
                if i < place {
                    assert(keys[i].rank() < key.rank());
                } else if i > place {
                    assert(keys[place].rank() < keys[i].rank());
                    lemma_rank_injective(keys[place], key);
                }
            }
        }
    }
}

/// The key at index `i` of an ordered table is found at `i`.
pub proof fn lemma_find_index(keys: Seq<Address>, i: int)
    requires
        strictly_increasing(keys),
        0 <= i < keys.len(),
    ensures
        find(keys, keys[i]) == Some(i),
{
    lemma_find_sound(keys, keys[i]);
    match find(keys, keys[i]) {
        Some(j) => {
            if j < i {
                assert(keys[j].rank() < keys[i].rank());
            } else if i < j {
                assert(keys[i].rank() < keys[j].rank());
            }
        },
        None => {},
    }
}

/// The index that an old index has after a key went in at `place`.
pub open spec fn moved(place: int, i: int) -> int {
    if i < place {
        i
    } else {
        i + 1
    }
}

/// Putting an absent key in at its lower bound keeps the table ordered; the
/// new key is found at that place, and every other key is found where it
/// moved to.
pub proof fn lemma_insert_keeps_order(keys: Seq<Address>, key: Address)
    requires
        strictly_increasing(keys),
        find(keys, key) is None,
    ensures
        strictly_increasing(keys.insert(lower_bound(keys, key), key)),
        find(keys.insert(lower_bound(keys, key), key), key) == Some(lower_bound(keys, key)),
        forall|other: Address|
            other != key ==> #[trigger] find(keys.insert(lower_bound(keys, key), key), other)
                == match find(keys, other) {
                Some(i) => Some(moved(lower_bound(keys, key), i)),
                None => None,
            },
{
    lemma_lower_bound_splits(keys, key);
    lemma_find_sound(keys, key);
    let place = lower_bound(keys, key);
    let grown = keys.insert(place, key);
    assert forall|i: int, j: int| 0 <= i < j < grown.len() implies grown[i].rank()
        < grown[j].rank() by {
        if i < place && j > place {
            assert(grown[j] == keys[j - 1]);
        } else if i == place {
            assert(grown[j] == keys[j - 1]);
            assert(keys[j - 1] != key);
            lemma_rank_injective(keys[j - 1], key);
        } else if j == place {
            assert(grown[i] == keys[i]);
        } else if i > place {
            assert(grown[i] == keys[i - 1] && grown[j] == keys[j - 1]);
        }
    }
    lemma_find_index(grown, place);
    assert forall|other: Address| other != key implies #[trigger] find(grown, other) == match find(
        keys,
        other,
    ) {
        Some(i) => Some(moved(place, i)),
        None => None,
    } by {
        lemma_find_sound(keys, other);
        lemma_find_sound(grown, other);
        match find(keys, other) {
            Some(i) => {
                assert(grown[moved(place, i)] == keys[i]);
                lemma_find_index(grown, moved(place, i));
            },
            None => {
                match find(grown, other) {
                    Some(j) => {
                        if j < place {
                            assert(grown[j] == keys[j]);
                        } else if j > place {
                            assert(grown[j] == keys[j - 1]);
                        }
                    },
                    None => {},
                }
            },
        }
    }
}

/// A record that is filed under an address.
pub trait Keyed {
    /// The address under which the record is filed.
    spec fn key(&self) -> Address;

    /// The address under which the record is filed.
    fn address(&self) -> (key: Address)
        ensures
            key == self.key(),
    ;
}

/// The keys of a list of records, in the order of the records.
pub open spec fn keys_of<T: Keyed>(items: Seq<T>) -> Seq<Address> {
    Seq::new(items.len(), |i: int| items[i].key())
}

/// Finds by bisection the place where `key` stands, or would stand, among
/// the ordered records.
pub fn position<T: Keyed>(items: &Vec<T>, key: &Address) -> (place: usize)
    requires
        strictly_increasing(keys_of(items@)),
    ensures
        place == lower_bound(keys_of(items@), *key),
        place <= items.len(),
{
    let ghost keys = keys_of(items@);
    let mut low: usize = 0;
    let mut high: usize = items.len();
    while low < high
        invariant
            low <= high <= items.len(),
            keys == keys_of(items@),
            strictly_increasing(keys),
            forall|i: int| 0 <= i < low ==> (#[trigger] keys[i]).rank() < key.rank(),
            forall|i: int| high <= i < keys.len() ==> key.rank() <= (#[trigger] keys[i]).rank(),
        decreases high - low,
    {
        let middle: usize = low + (high - low) / 2;
        let probe = items[middle].address();
        assert(probe == keys[middle as int]);
        if probe.lt(key) {
            low = middle + 1;
        } else {
            high = middle;
        }
    }
    proof {
        lemma_split_is_lower_bound(keys, *key, low as int);
    }
    low
}

} // verus!
