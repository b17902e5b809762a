//! What an update message of the exchange says.

use vstd::prelude::*;

use crate::amount::Amount;
use crate::decimal::{
    amount_from_json, amount_of_parts, json_amount, parse_amount, parsed_decimal, spells_amount,
};
use crate::json::{Json, JsonView};
use crate::market::MarketType;
use crate::order::{OrderBookUpdate, UpdateView};

verus! {

/// The amount that a JSON string spells.
pub open spec fn text_amount(value: JsonView) -> Option<Amount> {
    match value.text() {
        Some(text) => amount_of_parts(parsed_decimal(text)),
        None => None,
    }
}

/// A price and a quantity, where there are both.
pub open spec fn both(price: Option<Amount>, quantity: Option<Amount>) -> Option<
    (Amount, Amount),
> {
    match (price, quantity) {
        (Some(price), Some(quantity)) => Some((price, quantity)),
        _ => None,
    }
}

/// A level as the spot market writes it: the price and the quantity, as strings,
/// are the first two items of an array.
pub open spec fn spot_level(entry: JsonView) -> Option<(Amount, Amount)> {
    both(text_amount(entry.item(0)), text_amount(entry.item(1)))
}

/// A level as the futures market writes it: an object with the price under `p`
/// and the quantity under `s`, or an array of just these two.
pub open spec fn future_level(entry: JsonView) -> Option<(Amount, Amount)> {
    match entry {
        JsonView::Object(_) => both(json_amount(entry.field("p"@)), json_amount(entry.field("s"@))),
        JsonView::Array(items) => if items.len() == 2 {
            both(json_amount(items[0]), json_amount(items[1]))
        } else {
            None
        },
        _ => None,
    }
}

pub open spec fn level_of(entry: JsonView, market: MarketType) -> Option<(Amount, Amount)> {
    match market {
        MarketType::Spot => spot_level(entry),
        MarketType::Future => future_level(entry),
    }
}

/// The levels of a list, where every entry is one.
pub open spec fn levels_of(entries: Seq<JsonView>, market: MarketType) -> Option<
    Seq<(Amount, Amount)>,
>
    decreases entries.len(),
{
    if entries.len() == 0 {
        Some(Seq::empty())
    } else {
        match (levels_of(entries.drop_last(), market), level_of(entries.last(), market)) {
            (Some(levels), Some(level)) => Some(levels.push(level)),
            _ => None,
        }
    }
}

/// One side of an update: an array of levels.
pub open spec fn side_of(side: JsonView, market: MarketType) -> Option<Seq<(Amount, Amount)>> {
    match side.items() {
        Some(entries) => levels_of(entries, market),
        None => None,
    }
}

/// The update that a message's result holds: the asks under `a`, the bids under
/// `b`, the ids of its first and last change under `U` and `u`, and under `full`
/// whether it holds a whole book.
pub open spec fn update_of(result: JsonView, market: MarketType) -> Option<UpdateView> {
    match (
        side_of(result.field("a"@), market),
        side_of(result.field("b"@), market),
        result.field("U"@).whole(),
        result.field("u"@).whole(),
    ) {
        (Some(asks), Some(bids), Some(first_update_id), Some(last_update_id)) => Some(
            UpdateView {
                asks,
                bids,
                first_update_id,
                last_update_id,
                full: result.field("full"@).truth() == Some(true),
            },
        ),
        _ => None,
    }
}

/// A JSON value is a string that can be parsed.
pub open spec fn parses(value: JsonView) -> bool {
    match value.text() {
        Some(text) => parsed_decimal(text) is Some,
        None => false,
    }
}

/// An entry is a level: it has the market's form, and its price and its quantity
/// can be read.
pub open spec fn readable_level(entry: JsonView, market: MarketType) -> bool {
    match market {
        MarketType::Spot => parses(entry.item(0)) && parses(entry.item(1)),
        MarketType::Future => match entry {
            JsonView::Object(_) => spells_amount(entry.field("p"@)) && spells_amount(
                entry.field("s"@),
            ),
            JsonView::Array(items) => items.len() == 2 && spells_amount(items[0])
                && spells_amount(items[1]),
            _ => false,
        },
    }
}

/// A side is an array, and each of its entries a level.
pub open spec fn readable_side(side: JsonView, market: MarketType) -> bool {
    match side.items() {
        Some(entries) => forall|i: int|
            0 <= i < entries.len() ==> readable_level(#[trigger] entries[i], market),
        None => false,
    }
}

/// A message's result is an update: both sides can be read, and both ids are
/// unsigned integers.
pub open spec fn readable_update(result: JsonView, market: MarketType) -> bool {
    &&& readable_side(result.field("a"@), market)
    &&& readable_side(result.field("b"@), market)
    &&& result.field("U"@).whole() is Some
    &&& result.field("u"@).whole() is Some
}

/// The amount that an item of an array spells.
fn read_text_amount(entry: &Json, index: usize) -> (amount: Option<Amount>)
    ensures
        amount == text_amount(entry@.item(index as int)),
        amount is Some == parses(entry@.item(index as int)),
{
    match entry.at(index) {
        Some(value) => match value.as_text() {
            Some(text) => parse_amount(text),
            None => None,
        },
        None => None,
    }
}

/// The amount that a member of an object stands for.
fn read_member_amount(entry: &Json, name: &str) -> (amount: Option<Amount>)
    ensures
        amount == json_amount(entry@.field(name@)),
        amount is Some == spells_amount(entry@.field(name@)),
{
    match entry.get(name) {
        Some(value) => amount_from_json(value),
        None => None,
    }
}

fn pair(price: Option<Amount>, quantity: Option<Amount>) -> (level: Option<(Amount, Amount)>)
    ensures
        level == both(price, quantity),
{
    match (price, quantity) {
        (Some(price), Some(quantity)) => Some((price, quantity)),
        _ => None,
    }
}

/// Reads one level.
pub fn read_level(entry: &Json, market: &MarketType) -> (level: Option<(Amount, Amount)>)
    ensures
        level == level_of(entry@, *market),
        level is Some == readable_level(entry@, *market),
{
    match market {
        MarketType::Spot => pair(read_text_amount(entry, 0), read_text_amount(entry, 1)),
        MarketType::Future => match entry {
            Json::Object(_) => pair(read_member_amount(entry, "p"), read_member_amount(entry, "s")),
            Json::Array(_) => match (entry.at(0), entry.at(1), entry.at(2)) {
                (Some(price), Some(quantity), None) => pair(
                    amount_from_json(price),
                    amount_from_json(quantity),
                ),
                _ => None,
            },
            _ => None,
        },
    }
}

/// Once an entry is no level, no longer list is one of levels.
proof fn lemma_bad_entry(entries: Seq<JsonView>, market: MarketType, place: int)
    requires
        0 <= place < entries.len(),
        level_of(entries[place], market) is None,
    ensures
        levels_of(entries, market) is None,
    decreases entries.len(),
{
    if place < entries.len() - 1 {
        assert(entries.drop_last()[place] == entries[place]);
        lemma_bad_entry(entries.drop_last(), market, place);
    }
}

/// Reads one side of an update.
pub fn read_side(side: &Json, market: &MarketType) -> (levels: Option<Vec<(Amount, Amount)>>)
    ensures
        match levels {
            Some(found) => side_of(side@, *market) == Some(found@),
            None => side_of(side@, *market) is None,
        },
        levels is Some == readable_side(side@, *market),
{
    let count: usize = match side.count() {
        Some(count) => count,
        None => return None,
    };
    let ghost entries = side@->Array_0;
    let mut levels: Vec<(Amount, Amount)> = Vec::new();
    let mut i: usize = 0;
    assert(entries.take(0) =~= Seq::empty());
    while i < count
        invariant
            i <= count,
            side@ == JsonView::Array(entries),
            count == entries.len(),
            forall|j: int| 0 <= j < i ==> readable_level(#[trigger] entries[j], *market),
            levels_of(entries.take(i as int), *market) == Some(levels@),
        decreases count - i,
    {
        proof {
            assert(entries.take(i + 1).drop_last() =~= entries.take(i as int));
            assert(entries.take(i + 1).last() == entries[i as int]);
        }
        match side.at(i) {
            Some(entry) => match read_level(entry, market) {
                Some(level) => levels.push(level),
                None => {
                    proof {
                        lemma_bad_entry(entries, *market, i as int);
                    }
                    return None;
                },
            },
            None => return None,
        }
        i = i + 1;
    }
    assert(entries.take(i as int) =~= entries);
    Some(levels)
}

/// Reads the side of an update under a name.
fn read_named_side(value: &Json, name: &str, market: &MarketType) -> (levels: Option<
    Vec<(Amount, Amount)>,
>)
    ensures
        match levels {
            Some(found) => side_of(value@.field(name@), *market) == Some(found@),
            None => side_of(value@.field(name@), *market) is None,
        },
        levels is Some == readable_side(value@.field(name@), *market),
{
    match value.get(name) {
        Some(side) => read_side(side, market),
        None => None,
    }
}

/// The unsigned integer under a name.
fn read_whole(value: &Json, name: &str) -> (whole: Option<u64>)
    ensures
        whole == value@.field(name@).whole(),
{
    match value.get(name) {
        Some(found) => found.as_whole(),
        None => None,
    }
}

/// Reads the update that a message's result holds.
pub fn read_update(parsed: &Json, market: &MarketType) -> (update: Option<OrderBookUpdate>)
    ensures
        match update {
            Some(found) => update_of(parsed@, *market) == Some(found@),
            None => update_of(parsed@, *market) is None,
        },
        update is Some == readable_update(parsed@, *market),
{
    let asks = read_named_side(parsed, "a", market);
    let bids = read_named_side(parsed, "b", market);
    let full: bool = match parsed.get("full") {
        Some(value) => match value.as_truth() {
            Some(truth) => truth,
            None => false,
        },
        None => false,
    };
    match (asks, bids, read_whole(parsed, "U"), read_whole(parsed, "u")) {
        (Some(asks), Some(bids), Some(first_update_id), Some(last_update_id)) => Some(
            OrderBookUpdate { asks, bids, first_update_id, last_update_id, full },
        ),
        _ => None,
    }
}

} // verus!
