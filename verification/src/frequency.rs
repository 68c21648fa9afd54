use std::collections::HashMap;
use vstd::prelude::*;
use vstd::std_specs::hash::spec_hash_map_iter;
use vstd::std_specs::iter::IteratorSpec;

verus! {

broadcast use vstd::std_specs::hash::group_hash_axioms;

/// How often a key was counted: zero for a key that the table does not hold.
pub open spec fn count_of(counts: Map<u64, u64>, key: u64) -> u64 {
    if counts.contains_key(key) {
        counts[key]
    } else {
        0
    }
}

/// The count after one more occurrence. A count that has reached the top of
/// its range stays there.
pub open spec fn next_count(count: u64) -> u64 {
    if count < u64::MAX {
        (count + 1) as u64
    } else {
        count
    }
}

/// The table after one more occurrence of `key`: its count goes up by one,
/// every other count stays.
pub open spec fn bumped(counts: Map<u64, u64>, key: u64) -> Map<u64, u64> {
    counts.insert(key, next_count(count_of(counts, key)))
}

/// Whether the first row does not come after the second: by key, and by
/// count where the keys are the same.
pub open spec fn row_le(a: (u64, u64), b: (u64, u64)) -> bool {
    a.0 < b.0 || (a.0 == b.0 && a.1 <= b.1)
}

/// Whether the rows list the table: one row for each key that was counted,
/// with its count, in ascending order of the keys.
pub open spec fn lists(rows: Seq<(u64, u64)>, counts: Map<u64, u64>) -> bool {
    &&& forall|i: int, j: int| 0 <= i < j < rows.len() ==> rows[i].0 < rows[j].0
    &&& forall|i: int|
        0 <= i < rows.len() ==> counts.contains_key((#[trigger] rows[i]).0) && counts[rows[i].0]
            == rows[i].1
    &&& forall|key: u64| #[trigger]
        counts.contains_key(key) ==> exists|i: int|
            0 <= i < rows.len() && (#[trigger] rows[i]).0 == key
}

/// Sorts the pairs with `itertools::Itertools::sorted`, which collects them
/// and sorts them with the sort of slices, in the order of tuples: by first
/// member, then by second. The result holds the same pairs, each as often as
/// before, and none comes after a later one.
#[verifier::external_body]
fn sorted_pairs(pairs: Vec<(u64, u64)>) -> (r: Vec<(u64, u64)>)
    ensures
        r@.to_multiset() == pairs@.to_multiset(),
        forall|i: int, j: int| 0 <= i <= j < r@.len() ==> row_le(r@[i], r@[j]),
{
    itertools::Itertools::sorted(pairs.into_iter()).collect()
}

/// How often each key has occurred. Counts only grow.
pub struct FrequencyTable {
    counts: HashMap<u64, u64>,
}

impl View for FrequencyTable {
    type V = Map<u64, u64>;

    closed spec fn view(&self) -> Map<u64, u64> {
        self.counts@
    }
}

impl FrequencyTable {
    /// A table that has counted nothing.
    pub fn new() -> (r: FrequencyTable)
        ensures
            r@ == Map::<u64, u64>::empty(),
    {
        FrequencyTable { counts: HashMap::new() }
    }

    /// How often `key` was counted.
    pub fn count(&self, key: u64) -> (r: u64)
        ensures
            r == count_of(self@, key),
    {
        match self.counts.get(&key) {
            Some(count) => *count,
            None => 0,
        }
    }

    /// Counts one more occurrence of `key`.
    pub fn record(&mut self, key: u64)
        ensures
            final(self)@ == bumped(old(self)@, key),
    {
        let count = self.count(key);
        let next = if count < u64::MAX {
            count + 1
        } else {
            count
        };
        self.counts.insert(key, next);
    }

    /// The keys with their counts, in no particular order.
    fn pairs(&self) -> (r: Vec<(u64, u64)>)
        ensures
            r@.len() == self@.dom().len(),
            r@.no_duplicates(),
            forall|i: int|
                0 <= i < r@.len() ==> self@.contains_key((#[trigger] r@[i]).0) && self@[r@[i].0]
                    == r@[i].1,
            forall|key: u64| #[trigger]
                self@.contains_key(key) ==> exists|i: int|
                    0 <= i < r@.len() && (#[trigger] r@[i]).0 == key,
    {
        let mut pairs: Vec<(u64, u64)> = Vec::new();
        for entry in it: self.counts.iter()
            invariant
                it.seq() == spec_hash_map_iter(&self.counts).remaining(),
                pairs@.len() == it.index(),
                forall|i: int|
                    0 <= i < pairs@.len() ==> (#[trigger] pairs@[i]) == (
                        *it.seq()[i].0,
                        *it.seq()[i].1,
                    ),
        {
            let (key, count) = entry;
            pairs.push((*key, *count));
        }
        proof {
            let all = spec_hash_map_iter(&self.counts).remaining();
            assert forall|i: int, j: int|
                0 <= i < pairs@.len() && 0 <= j < pairs@.len() && i != j implies pairs@[i]
                != pairs@[j] by {
                assert(all[i] != all[j]);
            }
            assert forall|key: u64| #[trigger] self@.contains_key(key) implies exists|i: int|
                0 <= i < pairs@.len() && (#[trigger] pairs@[i]).0 == key by {
                let value = self@[key];
                assert(all.contains((&key, &value)));
                let i = choose|i: int| 0 <= i < all.len() && all[i] == (&key, &value);
                assert(pairs@[i].0 == key);
            }
        }
        pairs
    }

    /// The table as rows of key and count, in ascending order of the keys.
    pub fn rows(&self) -> (r: Vec<(u64, u64)>)
        ensures
            lists(r@, self@),
            r@.len() == self@.dom().len(),
    {
        let found = self.pairs();
        let rows = sorted_pairs(found);
        proof {
            found@.to_multiset_ensures();
            rows@.to_multiset_ensures();
            found@.lemma_multiset_has_no_duplicates();
            rows@.lemma_multiset_has_no_duplicates_conv();
            assert forall|i: int| 0 <= i < rows@.len() implies self@.contains_key(
                (#[trigger] rows@[i]).0,
            ) && self@[rows@[i].0] == rows@[i].1 by {
                assert(rows@.contains(rows@[i]));
                assert(rows@.to_multiset().count(rows@[i]) > 0);
                assert(found@.to_multiset().count(rows@[i]) > 0);
                assert(found@.contains(rows@[i]));
                let k = choose|k: int| 0 <= k < found@.len() && found@[k] == rows@[i];
                assert(self@.contains_key(found@[k].0));
            }
            assert forall|i: int, j: int| 0 <= i < j < rows@.len() implies rows@[i].0
                < rows@[j].0 by {
                assert(row_le(rows@[i], rows@[j]));
                assert(self@.contains_key(rows@[i].0) && self@.contains_key(rows@[j].0));
                assert(rows@[i] != rows@[j]);
            }
            assert forall|key: u64| #[trigger] self@.contains_key(key) implies exists|i: int|
                0 <= i < rows@.len() && (#[trigger] rows@[i]).0 == key by {
                let k = choose|k: int| 0 <= k < found@.len() && (#[trigger] found@[k]).0 == key;
                assert(found@.contains(found@[k]));
                assert(found@.to_multiset().count(found@[k]) > 0);
                assert(rows@.to_multiset().count(found@[k]) > 0);
                assert(rows@.contains(found@[k]));
                let i = choose|i: int| 0 <= i < rows@.len() && rows@[i] == found@[k];
                assert(rows@[i].0 == key);
            }
        }
        rows
    }

    /// The number of keys that were counted at least once.
    pub fn len(&self) -> (r: usize)
        ensures
            r == self@.dom().len(),
            self@.dom().finite(),
    {
        self.counts.len()
    }
}

/// Counting never lowers a count, and raises that of the key by one.
pub proof fn lemma_bumped(counts: Map<u64, u64>, key: u64, other: u64)
    ensures
        count_of(bumped(counts, key), key) == next_count(count_of(counts, key)),
        other != key ==> count_of(bumped(counts, key), other) == count_of(counts, other),
        count_of(bumped(counts, key), other) >= count_of(counts, other),
        bumped(counts, key).dom() == counts.dom().insert(key),
{
}

/// A table has one listing: two lists of rows that both list it are the
/// same, row for row.
pub proof fn lemma_listing_unique(a: Seq<(u64, u64)>, b: Seq<(u64, u64)>, counts: Map<u64, u64>)
    requires
        lists(a, counts),
        lists(b, counts),
    ensures
        a == b,
    decreases a.len(),
{
    if a.len() == 0 {
        if b.len() > 0 {
            assert(counts.contains_key(b[0].0));
        }
    } else if b.len() == 0 {
        assert(counts.contains_key(a[0].0));
    } else {
        // The last rows hold the largest key on either side.
        let x = a.last();
        let y = b.last();
        assert(counts.contains_key(x.0) && counts.contains_key(y.0));
        let i = choose|i: int| 0 <= i < b.len() && (#[trigger] b[i]).0 == x.0;
        let j = choose|j: int| 0 <= j < a.len() && (#[trigger] a[j]).0 == y.0;
        assert(x.0 == y.0);
        assert(x == y);
        let rest = counts.remove(x.0);
        assert(lists(a.drop_last(), rest)) by {
            lemma_listing_without_last(a, counts);
        }
        assert(lists(b.drop_last(), rest)) by {
            lemma_listing_without_last(b, counts);
        }
        lemma_listing_unique(a.drop_last(), b.drop_last(), rest);
        assert(a =~= a.drop_last().push(x));
        assert(b =~= b.drop_last().push(y));
    }
}

/// A listing without its last row lists the table without that row's key.
pub proof fn lemma_listing_without_last(rows: Seq<(u64, u64)>, counts: Map<u64, u64>)
    requires
        lists(rows, counts),
        rows.len() > 0,
    ensures
        lists(rows.drop_last(), counts.remove(rows.last().0)),
{
    let init = rows.drop_last();
    let rest = counts.remove(rows.last().0);
    assert forall|i: int| 0 <= i < init.len() implies rest.contains_key((#[trigger] init[i]).0)
        && rest[init[i].0] == init[i].1 by {
        assert(init[i] == rows[i]);
        assert(rows[i].0 < rows[rows.len() - 1].0);
    }
    assert forall|key: u64| #[trigger] rest.contains_key(key) implies exists|i: int|
        0 <= i < init.len() && (#[trigger] init[i]).0 == key by {
        assert(counts.contains_key(key));
        let i = choose|i: int| 0 <= i < rows.len() && (#[trigger] rows[i]).0 == key;
        assert(init[i] == rows[i]);
    }
    assert forall|i: int, j: int| 0 <= i < j < init.len() implies init[i].0 < init[j].0 by {
        assert(init[i] == rows[i] && init[j] == rows[j]);
    }
}

} // verus!
