//! The bid prices that a symbol's messages have named.

use vstd::prelude::*;

use crate::amount::{zero_amount, Amount};
use crate::ladder::{ascending, lemma_listing, listing, lists, Ladder};

verus! {

/// The prices after one change of a bid: a quantity of zero takes the price out,
/// any other puts it in.
pub open spec fn noted_one(prices: Set<Amount>, change: (Amount, Amount)) -> Set<Amount> {
    if change.1 == zero_amount() {
        prices.remove(change.0)
    } else {
        prices.insert(change.0)
    }
}

/// The prices after a list of changes, made in the list's order.
pub open spec fn noted(prices: Set<Amount>, changes: Seq<(Amount, Amount)>) -> Set<Amount>
    decreases changes.len(),
{
    if changes.len() == 0 {
        prices
    } else {
        noted_one(noted(prices, changes.drop_last()), changes.last())
    }
}

/// The prices after a whole side of a book: those of its prices that have a
/// quantity are in, those without are out, and the others are as they were.
pub open spec fn noted_levels(prices: Set<Amount>, levels: Map<Amount, Amount>) -> Set<Amount> {
    Set::new(
        |price: Amount|
            if levels.contains_key(price) {
                levels[price] != zero_amount()
            } else {
                prices.contains(price)
            },
    )
}

/// A bid of the book whose price is not among the prices.
pub open spec fn outside(prices: Set<Amount>, bids: Map<Amount, Amount>, price: Amount) -> bool {
    bids.contains_key(price) && !prices.contains(price)
}

/// The highest of the bids that are outside.
pub open spec fn highest_outside(
    prices: Set<Amount>,
    bids: Map<Amount, Amount>,
    price: Amount,
) -> bool {
    &&& outside(prices, bids, price)
    &&& forall|other: Amount| #[trigger]
        outside(prices, bids, other) ==> !price.precedes(other)
}

/// The first bid, from the highest down, whose price is not among the prices.
pub open spec fn first_outside(prices: Set<Amount>, bids: Map<Amount, Amount>) -> Option<Amount> {
    if exists|price: Amount| outside(prices, bids, price) {
        Some(choose|price: Amount| highest_outside(prices, bids, price))
    } else {
        None
    }
}

/// A set of bid prices.
pub struct HistoryBids {
    prices: Ladder<()>,
}

impl View for HistoryBids {
    type V = Set<Amount>;

    closed spec fn view(&self) -> Set<Amount> {
        self.prices@.dom()
    }
}

/// In a side of a book each price occurs once, so that the order in which its
/// levels are noted does not matter.
proof fn lemma_noted_levels(
    prices: Set<Amount>,
    entries: Seq<(Amount, Amount)>,
    price: Amount,
)
    requires
        ascending(entries),
    ensures
        noted(prices, entries).contains(price) == noted_levels(prices, listing(entries)).contains(
            price,
        ),
    decreases entries.len(),
{
    lemma_listing(entries);
    if entries.len() > 0 {
        let rest = entries.drop_last();
        let last = entries.last();
        assert forall|i: int, j: int| 0 <= i < j < rest.len() implies (#[trigger] rest[i]).0.precedes(
            (#[trigger] rest[j]).0,
        ) by {
            assert(rest[i] == entries[i] && rest[j] == entries[j]);
        }
        lemma_listing(rest);
        lemma_noted_levels(prices, rest, price);
        if price == last.0 {
            assert(entries[entries.len() - 1].0 == price);
            assert(lists(entries, price));
        } else if lists(rest, price) {
            let i = choose|i: int| 0 <= i < rest.len() && (#[trigger] rest[i]).0 == price;
            assert(entries[i] == rest[i]);
            assert(lists(entries, price));
        } else {
            assert(!lists(entries, price)) by {
                if lists(entries, price) {
                    let i = choose|i: int|
                        0 <= i < entries.len() && (#[trigger] entries[i]).0 == price;
                    assert(rest[i] == entries[i]);
                }
            }
        }
    }
}

impl HistoryBids {
    /// No prices.
    pub fn new() -> (history: HistoryBids)
        ensures
            history@ == Set::<Amount>::empty(),
    {
        HistoryBids { prices: Ladder::new() }
    }

    pub fn contains(&self, price: &Amount) -> (yes: bool)
        ensures
            yes == self@.contains(*price),
    {
        self.prices.contains(price)
    }

    /// Notes a list of changes of bids.
    pub fn note(&mut self, changes: &Vec<(Amount, Amount)>)
        ensures
            final(self)@ == noted(old(self)@, changes@),
    {
        let ghost before = self@;
        let mut i: usize = 0;
        assert(changes@.take(0) =~= Seq::empty());
        while i < changes.len()
            invariant
                i <= changes@.len(),
                self@ == noted(before, changes@.take(i as int)),
            decreases changes@.len() - i,
        {
            let (price, quantity) = changes[i];
            proof {
                let done = changes@.take(i + 1);
                assert(done.drop_last() =~= changes@.take(i as int));
                assert(done.last() == changes@[i as int]);
            }
            if quantity.is_zero() {
                self.prices.remove(&price);
            } else {
                self.prices.insert(price, ());
            }
            i = i + 1;
        }
        assert(changes@.take(i as int) =~= changes@);
    }

    /// Notes a whole side of a book.
    pub fn note_levels(&mut self, bids: &Ladder<Amount>)
        ensures
            final(self)@ == noted_levels(old(self)@, bids@),
    {
        let ghost before = self@;
        let levels: Vec<(Amount, Amount)> = bids.levels();
        self.note(&levels);
        proof {
            assert forall|price: Amount| #[trigger]
                self@.contains(price) == noted_levels(before, bids@).contains(price) by {
                lemma_noted_levels(before, levels@, price);
            }
            assert(self@ =~= noted_levels(before, bids@));
        }
    }

    /// The first bid, from the highest down, whose price is not among these.
    pub fn find_outside(&self, bids: &Ladder<Amount>) -> (found: Option<Amount>)
        ensures
            found == first_outside(self@, bids@),
    {
        let levels: Vec<(Amount, Amount)> = bids.levels();
        proof {
            lemma_listing(levels@);
        }
        let mut i: usize = levels.len();
        while i > 0
            invariant
                i <= levels@.len(),
                ascending(levels@),
                listing(levels@) == bids@,
                forall|j: int|
                    0 <= j < levels@.len() ==> bids@.contains_key((#[trigger] levels@[j]).0),
                forall|j: int|
                    i <= j < levels@.len() ==> self@.contains((#[trigger] levels@[j]).0),
            decreases i,
        {
            i = i - 1;
            let price: Amount = levels[i].0;
            if !self.contains(&price) {
                proof {
                    assert(outside(self@, bids@, price));
                    assert forall|other: Amount| #[trigger]
                        outside(self@, bids@, other) implies !price.precedes(other) by {
                        assert(lists(levels@, other));
                        let k = choose|k: int|
                            0 <= k < levels@.len() && (#[trigger] levels@[k]).0 == other;
                        assert(k <= i);
                        if k < i {
                            assert(levels@[k].0.precedes(levels@[i as int].0));
                        }
                    }
                    assert(highest_outside(self@, bids@, price));
                    let chosen = choose|p: Amount| highest_outside(self@, bids@, p);
                    assert(highest_outside(self@, bids@, chosen));
                    assert(!price.precedes(chosen) && !chosen.precedes(price));
                }
                return Some(price);
            }
        }
        assert forall|price: Amount| !outside(self@, bids@, price) by {
            if bids@.contains_key(price) {
                assert(lists(levels@, price));
            }
        }
        None
    }
}

} // verus!
