//! The local order book and the updates that it is kept in step with.

use vstd::prelude::*;

use crate::amount::{zero_amount, Amount};
use crate::ladder::Ladder;

verus! {

/// A side of a book after one change: a quantity of zero takes the price away,
/// any other is put at the price.
pub open spec fn changed(levels: Map<Amount, Amount>, change: (Amount, Amount)) -> Map<
    Amount,
    Amount,
> {
    if change.1 == zero_amount() {
        levels.remove(change.0)
    } else {
        levels.insert(change.0, change.1)
    }
}

/// A side of a book after a list of changes, made in the list's order.
pub open spec fn applied(levels: Map<Amount, Amount>, changes: Seq<(Amount, Amount)>) -> Map<
    Amount,
    Amount,
>
    decreases changes.len(),
{
    if changes.len() == 0 {
        levels
    } else {
        changed(applied(levels, changes.drop_last()), changes.last())
    }
}

/// The side of a book that a list of prices and quantities gives: of two with
/// one price the later counts, and a quantity of zero stays.
pub open spec fn collected(pairs: Seq<(Amount, Amount)>) -> Map<Amount, Amount>
    decreases pairs.len(),
{
    if pairs.len() == 0 {
        Map::empty()
    } else {
        collected(pairs.drop_last()).insert(pairs.last().0, pairs.last().1)
    }
}

/// A message about what has changed in a book since `first_update_id`.
pub struct OrderBookUpdate {
    pub asks: Vec<(Amount, Amount)>,
    pub bids: Vec<(Amount, Amount)>,
    pub first_update_id: u64,
    pub last_update_id: u64,
    /// The message holds a whole book.
    pub full: bool,
}

/// What an update says.
pub struct UpdateView {
    pub asks: Seq<(Amount, Amount)>,
    pub bids: Seq<(Amount, Amount)>,
    pub first_update_id: u64,
    pub last_update_id: u64,
    pub full: bool,
}

impl View for OrderBookUpdate {
    type V = UpdateView;

    open spec fn view(&self) -> UpdateView {
        UpdateView {
            asks: self.asks@,
            bids: self.bids@,
            first_update_id: self.first_update_id,
            last_update_id: self.last_update_id,
            full: self.full,
        }
    }
}

/// An update continues a book at `update_id` when the change right after
/// `update_id` is one of those that it tells of.
pub open spec fn continues(update_id: u64, update: UpdateView) -> bool {
    update.first_update_id <= update_id + 1 <= update.last_update_id
}

/// The two sides of a market: at each price the quantity on offer. The id of
/// the last change that is in them is 0 before the book is set up, and 1 while
/// it is being set up.
pub struct OrderBook {
    pub asks: Ladder<Amount>,
    pub bids: Ladder<Amount>,
    pub update_id: u64,
}

/// What a book holds.
pub struct BookView {
    pub asks: Map<Amount, Amount>,
    pub bids: Map<Amount, Amount>,
    pub update_id: u64,
}

impl View for OrderBook {
    type V = BookView;

    open spec fn view(&self) -> BookView {
        BookView { asks: self.asks@, bids: self.bids@, update_id: self.update_id }
    }
}

impl BookView {
    /// A book that was not set up.
    pub open spec fn empty() -> BookView {
        BookView { asks: Map::empty(), bids: Map::empty(), update_id: 0 }
    }

    /// The book with an update in it.
    pub open spec fn updated(self, update: UpdateView) -> BookView {
        BookView {
            asks: applied(self.asks, update.asks),
            bids: applied(self.bids, update.bids),
            update_id: update.last_update_id,
        }
    }

    /// The same levels under another id.
    pub open spec fn marked(self, update_id: u64) -> BookView {
        BookView { update_id, ..self }
    }
}

impl Default for OrderBook {
    fn default() -> (book: OrderBook)
        ensures
            book@ == BookView::empty(),
    {
        OrderBook { asks: Ladder::new(), bids: Ladder::new(), update_id: 0 }
    }
}

/// Makes a list of changes to one side of a book.
fn apply_changes(levels: &mut Ladder<Amount>, changes: &Vec<(Amount, Amount)>)
    ensures
        final(levels)@ == applied(old(levels)@, changes@),
{
    let ghost before = levels@;
    let mut i: usize = 0;
    assert(changes@.take(0) =~= Seq::empty());
    while i < changes.len()
        invariant
            i <= changes@.len(),
            levels@ == applied(before, changes@.take(i as int)),
        decreases changes@.len() - i,
    {
        let (price, quantity) = changes[i];
        proof {
            let done = changes@.take(i + 1);
            assert(done.drop_last() =~= changes@.take(i as int));
            assert(done.last() == changes@[i as int]);
        }
        if quantity.is_zero() {
            levels.remove(&price);
        } else {
            levels.insert(price, quantity);
        }
        i = i + 1;
    }
    assert(changes@.take(i as int) =~= changes@);
}

/// Makes a side of a book out of a list of prices and quantities.
fn collect_levels(pairs: &Vec<(Amount, Amount)>) -> (levels: Ladder<Amount>)
    ensures
        levels@ == collected(pairs@),
{
    let mut levels: Ladder<Amount> = Ladder::new();
    let mut i: usize = 0;
    assert(pairs@.take(0) =~= Seq::empty());
    while i < pairs.len()
        invariant
            i <= pairs@.len(),
            levels@ == collected(pairs@.take(i as int)),
        decreases pairs@.len() - i,
    {
        let (price, quantity) = pairs[i];
        proof {
            let done = pairs@.take(i + 1);
            assert(done.drop_last() =~= pairs@.take(i as int));
            assert(done.last() == pairs@[i as int]);
        }
        levels.insert(price, quantity);
        i = i + 1;
    }
    assert(pairs@.take(i as int) =~= pairs@);
    levels
}

impl OrderBook {
    /// The book of a snapshot: the levels that it lists, at its id.
    pub fn from_levels(
        update_id: u64,
        asks: &Vec<(Amount, Amount)>,
        bids: &Vec<(Amount, Amount)>,
    ) -> (book: OrderBook)
        ensures
            book@ == (BookView { asks: collected(asks@), bids: collected(bids@), update_id }),
    {
        OrderBook { asks: collect_levels(asks), bids: collect_levels(bids), update_id }
    }

    /// Makes the changes of an update, and takes over the id that it ends with.
    pub fn apply_update(&mut self, update: &OrderBookUpdate)
        ensures
            final(self)@ == old(self)@.updated(update@),
    {
        apply_changes(&mut self.asks, &update.asks);
        apply_changes(&mut self.bids, &update.bids);
        self.update_id = update.last_update_id;
    }
}

impl OrderBookUpdate {
    /// Whether this update continues a book at `update_id`.
    pub fn continues_from(&self, update_id: u64) -> (yes: bool)
        ensures
            yes == continues(update_id, self@),
    {
        (self.first_update_id == 0 || self.first_update_id - 1 <= update_id)
            && self.last_update_id > update_id
    }
}

} // verus!
