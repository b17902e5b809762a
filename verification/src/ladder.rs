//! Collections that are kept in the order of their prices.

use vstd::prelude::*;

use crate::amount::Amount;

verus! {

/// The prices of `entries` rise from each entry to the next.
pub open spec fn ascending<V>(entries: Seq<(Amount, V)>) -> bool {
    forall|i: int, j: int|
        0 <= i < j < entries.len() ==> (#[trigger] entries[i]).0.precedes(
            (#[trigger] entries[j]).0,
        )
}

/// Some entry has this price.
pub open spec fn lists<V>(entries: Seq<(Amount, V)>, price: Amount) -> bool {
    exists|i: int| 0 <= i < entries.len() && (#[trigger] entries[i]).0 == price
}

/// What `entries` say of each price that they list.
pub open spec fn listing<V>(entries: Seq<(Amount, V)>) -> Map<Amount, V> {
    Map::new(
        |price: Amount| lists(entries, price),
        |price: Amount|
            entries[choose|i: int| 0 <= i < entries.len() && (#[trigger] entries[i]).0 == price].1,
    )
}

/// A map from prices, at most one entry for each, held in rising order.
pub struct Ladder<V> {
    entries: Vec<(Amount, V)>,
}

impl<V> View for Ladder<V> {
    type V = Map<Amount, V>;

    closed spec fn view(&self) -> Map<Amount, V> {
        listing(self.entries@)
    }
}

/// In rising entries each entry is what they say of its price.
pub proof fn lemma_listing<V>(entries: Seq<(Amount, V)>)
    requires
        ascending(entries),
    ensures
        forall|i: int|
            0 <= i < entries.len() ==> listing(entries).contains_key(
                (#[trigger] entries[i]).0,
            ) && listing(entries)[entries[i].0] == entries[i].1,
{
    assert forall|i: int| 0 <= i < entries.len() implies listing(entries).contains_key(
        (#[trigger] entries[i]).0,
    ) && listing(entries)[entries[i].0] == entries[i].1 by {
        let price = entries[i].0;
        assert(lists(entries, price));
        let k = choose|k: int| 0 <= k < entries.len() && (#[trigger] entries[k]).0 == price;
        assert(k == i);
    }
}

impl<V> Ladder<V> {
    #[verifier::type_invariant]
    spec fn rises(self) -> bool {
        ascending(self.entries@)
    }

    /// A ladder with no entries.
    pub fn new() -> (ladder: Ladder<V>)
        ensures
            ladder@ == Map::<Amount, V>::empty(),
    {
        let ladder = Ladder { entries: Vec::new() };
        assert(ladder@ =~= Map::<Amount, V>::empty());
        ladder
    }

    /// The number of entries whose price comes before `price`.
    fn rank(&self, price: &Amount) -> (rank: usize)
        ensures
            rank <= self.entries@.len(),
            forall|i: int| 0 <= i < rank ==> (#[trigger] self.entries@[i]).0.precedes(*price),
            forall|i: int|
                rank <= i < self.entries@.len() ==> !(#[trigger] self.entries@[i]).0.precedes(
                    *price,
                ),
    {
        proof {
            use_type_invariant(self);
        }
        let mut low: usize = 0;
        let mut high: usize = self.entries.len();
        while low < high
            invariant
                low <= high <= self.entries@.len(),
                ascending(self.entries@),
                forall|i: int| 0 <= i < low ==> (#[trigger] self.entries@[i]).0.precedes(*price),
                forall|i: int|
                    high <= i < self.entries@.len() ==> !(#[trigger] self.entries@[i]).0.precedes(
                        *price,
                    ),
            decreases high - low,
        {
            let middle: usize = low + (high - low) / 2;
            if self.entries[middle].0.less_than(price) {
                low = middle + 1;
            } else {
                high = middle;
            }
        }
        low
    }

    pub fn contains(&self, price: &Amount) -> (yes: bool)
        ensures
            yes == self@.contains_key(*price),
    {
        let rank: usize = self.rank(price);
        proof {
            use_type_invariant(self);
            lemma_listing(self.entries@);
        }
        rank < self.entries.len() && self.entries[rank].0 == *price
    }

    /// The value at a price.
    pub fn get(&self, price: &Amount) -> (value: Option<&V>)
        ensures
            match value {
                Some(found) => self@.contains_key(*price) && *found == self@[*price],
                None => !self@.contains_key(*price),
            },
    {
        let rank: usize = self.rank(price);
        proof {
            use_type_invariant(self);
            lemma_listing(self.entries@);
        }
        if rank < self.entries.len() && self.entries[rank].0 == *price {
            Some(&self.entries[rank].1)
        } else {
            None
        }
    }

    /// Puts a value at a price, in place of the one that was there.
    pub fn insert(&mut self, price: Amount, value: V)
        ensures
            final(self)@ == old(self)@.insert(price, value),
    {
        let rank: usize = self.rank(&price);
        proof {
            use_type_invariant(&*self);
        }
        let ghost before = self.entries@;
        let mut entries: Vec<(Amount, V)> = Vec::new();
        std::mem::swap(&mut entries, &mut self.entries);
        if rank < entries.len() && entries[rank].0 == price {
            entries.set(rank, (price, value));
        } else {
            entries.insert(rank, (price, value));
        }
        let ghost after = entries@;
        proof {
            assert(after[rank as int] == (price, value));
            if after.len() == before.len() {
                assert forall|i: int| 0 <= i < before.len() implies lists(
                    after,
                    (#[trigger] before[i]).0,
                ) by {
                    assert(after[i].0 == before[i].0);
                }
            } else {
                assert forall|i: int| 0 <= i < before.len() implies lists(
                    after,
                    (#[trigger] before[i]).0,
                ) by {
                    if i < rank {
                        assert(after[i] == before[i]);
                    } else {
                        assert(after[i + 1] == before[i]);
                    }
                }
            }
            assert(ascending(after));
            lemma_listing(before);
            lemma_listing(after);
            assert(listing(after) =~= listing(before).insert(price, value));
        }
        self.entries = entries;
    }

    /// Takes the entry at a price away, if there is one.
    pub fn remove(&mut self, price: &Amount)
        ensures
            final(self)@ == old(self)@.remove(*price),
    {
        let rank: usize = self.rank(price);
        proof {
            use_type_invariant(&*self);
        }
        let ghost before = self.entries@;
        let mut entries: Vec<(Amount, V)> = Vec::new();
        std::mem::swap(&mut entries, &mut self.entries);
        if rank < entries.len() && entries[rank].0 == *price {
            entries.remove(rank);
        }
        let ghost after = entries@;
        proof {
            assert(ascending(after));
            lemma_listing(before);
            lemma_listing(after);
            assert forall|i: int| 0 <= i < before.len() && before[i].0 != *price implies lists(
                after,
                (#[trigger] before[i]).0,
            ) by {
                if after.len() == before.len() || i < rank {
                    assert(after[i] == before[i]);
                } else {
                    assert(after[i - 1] == before[i]);
                }
            }
            assert(listing(after) =~= listing(before).remove(*price));
        }
        self.entries = entries;
    }
}

impl<V: Copy> Ladder<V> {
    /// The entries, in rising order of their prices.
    pub fn levels(&self) -> (levels: Vec<(Amount, V)>)
        ensures
            ascending(levels@),
            listing(levels@) == self@,
    {
        proof {
            use_type_invariant(self);
        }
        let mut levels: Vec<(Amount, V)> = Vec::new();
        let mut i: usize = 0;
        while i < self.entries.len()
            invariant
                i <= self.entries@.len(),
                levels@ == self.entries@.take(i as int),
            decreases self.entries@.len() - i,
        {
            levels.push(self.entries[i]);
            i = i + 1;
        }
        assert(levels@ =~= self.entries@);
        levels
    }
}

} // verus!
