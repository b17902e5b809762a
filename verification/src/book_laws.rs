//! What amounts, levels and notes are.

use vstd::prelude::*;

use crate::amount::{amount_of, pow10, zero_amount, Amount, MAX_SCALE, PARTS_PER_UNIT};
use crate::history::{noted, noted_levels};
use crate::ladder::{ascending, lemma_listing, listing};
use crate::order::{applied, collected, BookView, OrderBook, OrderBookUpdate, UpdateView};
use crate::snapshot::{item_pairs, FutureDepthSnapshotItem};

verus! {

/// An amount counts its units and, in steps of ten to the minus 28, the rest.
pub proof fn law_amount_counts_units_and_parts(amount: Amount)
    ensures
        amount.value() == amount.units * 10_000_000_000_000_000_000_000_000_000 + amount.parts,
        amount.normal() <==> amount.parts < 10_000_000_000_000_000_000_000_000_000,
        PARTS_PER_UNIT == 10_000_000_000_000_000_000_000_000_000,
        MAX_SCALE == 28,
{
}

/// Each power of ten is ten times the one before it.
pub proof fn law_powers_of_ten(n: nat)
    ensures
        pow10(0) == 1,
        pow10(n + 1) == 10 * pow10(n),
{
}

/// Zero is the amount whose number is zero, and no scale above 28 gives an amount.
pub proof fn law_zero_and_scales(amount: Amount, mantissa: i128, scale: u32)
    requires
        amount.normal(),
    ensures
        amount == zero_amount() <==> amount.value() == 0,
        amount_of(mantissa, scale) is Some <==> scale <= 28,
{
}

/// Of the notes on a price the last one counts: it puts the price in, or takes it
/// out where the quantity is zero. Other prices stay as they are.
pub proof fn law_last_note_counts(
    prices: Set<Amount>,
    changes: Seq<(Amount, Amount)>,
    price: Amount,
    last: int,
)
    requires
        -1 <= last < changes.len(),
        last >= 0 ==> changes[last].0 == price,
        forall|i: int| last < i < changes.len() ==> (#[trigger] changes[i]).0 != price,
    ensures
        noted(prices, changes).contains(price) == if last >= 0 {
            changes[last].1 != zero_amount()
        } else {
            prices.contains(price)
        },
    decreases changes.len(),
{
    if changes.len() > 0 && last < changes.len() - 1 {
        let rest = changes.drop_last();
        assert(changes.last().0 != price);
        assert forall|i: int| last < i < rest.len() implies (#[trigger] rest[i]).0 != price by {
            assert(rest[i] == changes[i]);
        }
        if last >= 0 {
            assert(rest[last] == changes[last]);
        }
        law_last_note_counts(prices, rest, price, last);
    }
}

/// A side that is noted as a whole puts its prices in, but for those without a
/// quantity, which it takes out; a price that it does not have stays as it is.
pub proof fn law_levels_are_noted(
    prices: Set<Amount>,
    levels: Map<Amount, Amount>,
    price: Amount,
)
    ensures
        levels.contains_key(price) && levels[price] != zero_amount() ==> noted_levels(
            prices,
            levels,
        ).contains(price),
        levels.contains_key(price) && levels[price] == zero_amount() ==> !noted_levels(
            prices,
            levels,
        ).contains(price),
        !levels.contains_key(price) ==> noted_levels(prices, levels).contains(price)
            == prices.contains(price),
{
}

/// Rising entries list each of their prices with its value, and no other price; they
/// rise from each entry to every later one.
pub proof fn law_rising_entries_list_levels<V>(entries: Seq<(Amount, V)>, price: Amount)
    requires
        ascending(entries),
    ensures
        listing(entries).contains_key(price) <==> exists|i: int|
            0 <= i < entries.len() && (#[trigger] entries[i]).0 == price,
        forall|i: int|
            0 <= i < entries.len() && (#[trigger] entries[i]).0 == price ==> listing(
                entries,
            )[price] == entries[i].1,
        forall|i: int, j: int|
            #![trigger entries[i], entries[j]]
            0 <= i < j < entries.len() ==> entries[i].0.units < entries[j].0.units || (
            entries[i].0.units == entries[j].0.units && entries[i].0.parts < entries[j].0.parts),
{
    lemma_listing(entries);
}

/// A book that takes an update makes the update's changes, those of asks to its asks
/// and those of bids to its bids, and is at the update's last id.
pub proof fn law_book_takes_update(book: BookView, update: UpdateView)
    ensures
        book.updated(update).asks == applied(book.asks, update.asks),
        book.updated(update).bids == applied(book.bids, update.bids),
        book.updated(update).update_id == update.last_update_id,
{
}

/// No changes leave a side, and no entries give an empty one; a book that is marked
/// keeps its levels.
pub proof fn law_nothing_changes_nothing(book: BookView, update_id: u64)
    ensures
        applied(book.asks, Seq::empty()) == book.asks,
        collected(Seq::empty()) == Map::<Amount, Amount>::empty(),
        noted(book.bids.dom(), Seq::empty()) == book.bids.dom(),
        book.marked(update_id).asks == book.asks,
        book.marked(update_id).bids == book.bids,
        book.marked(update_id).update_id == update_id,
        BookView::empty().asks == Map::<Amount, Amount>::empty(),
        BookView::empty().bids == Map::<Amount, Amount>::empty(),
        BookView::empty().update_id == 0,
{
}

/// An update and a book are seen as what their fields hold.
pub proof fn law_books_and_updates_are_their_fields(update: OrderBookUpdate, book: OrderBook)
    ensures
        update@.asks == update.asks@,
        update@.bids == update.bids@,
        update@.first_update_id == update.first_update_id,
        update@.last_update_id == update.last_update_id,
        update@.full == update.full,
        book@.asks == book.asks@,
        book@.bids == book.bids@,
        book@.update_id == book.update_id,
{
}

/// The items of a snapshot give their prices and quantities, one for one.
pub proof fn law_items_are_pairs(items: Seq<FutureDepthSnapshotItem>, i: int)
    requires
        0 <= i < items.len(),
    ensures
        item_pairs(items).len() == items.len(),
        item_pairs(items)[i].0 == items[i].p,
        item_pairs(items)[i].1 == items[i].s,
{
}

} // verus!
