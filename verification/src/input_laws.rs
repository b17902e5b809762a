//! What is read out of the exchange's messages and lists.

use vstd::prelude::*;

use crate::amount::{amount_of, law_amount_is_exact, pow10, Amount};
use crate::asset::{
    answered, asset_of, asset_views, assets_of, by_symbol, distinct_symbols, fetched, kept_assets,
    listed_assets, lists_symbol, tradable, Asset, AssetView, Assets, AssetsView, ExchangeError,
};
use crate::decimal::{amount_of_parts, json_amount, parsed_decimal, spells_amount};
use crate::json::{deserialized_decimal, parsed_json, JsonView};
use crate::laws::law_levels_are_read_one_for_one;
use crate::market::MarketType;
use crate::order::UpdateView;
use crate::symbol::{normalized, occurs, symbol_of};
use crate::text::{after_mark, before_mark, cut, lemma_cut};
use crate::update::{
    level_of, readable_level, readable_update, update_of,
};

verus! {

/// A member of an object is found under its name, and nothing is found elsewhere.
pub proof fn law_members_are_found_by_name(value: JsonView, name: Seq<char>)
    ensures
        match value {
            JsonView::Object(members) => if members.contains_key(name) {
                value.member(name) == Some(members[name]) && value.field(name) == members[name]
            } else {
                value.member(name) is None && value.field(name) == JsonView::Null
            },
            _ => value.member(name) is None && value.field(name) == JsonView::Null,
        },
{
}

/// An item of an array is found at its place, and nothing is found elsewhere.
pub proof fn law_items_are_found_by_place(value: JsonView, index: int)
    ensures
        match value {
            JsonView::Array(items) => {
                &&& value.items() == Some(items)
                &&& 0 <= index < items.len() ==> value.item(index) == items[index]
                &&& !(0 <= index < items.len()) ==> value.item(index) == JsonView::Null
            },
            _ => value.items() is None && value.item(index) == JsonView::Null,
        },
{
}

/// A value is read as what it is: a string as its text, a number as a whole number or
/// a decimal, a string as a decimal too, and a truth value as itself.
pub proof fn law_values_are_read_as_they_are(value: JsonView)
    ensures
        match value {
            JsonView::Text(text) => {
                &&& value.text() == Some(text)
                &&& value.whole() is None
                &&& value.truth() is None
                &&& value.decimal() == deserialized_decimal(text)
            },
            JsonView::Number { whole, decimal } => {
                &&& value.text() is None
                &&& value.whole() == whole
                &&& value.truth() is None
                &&& value.decimal() == decimal
            },
            JsonView::Bool(truth) => {
                &&& value.text() is None
                &&& value.whole() is None
                &&& value.truth() == Some(truth)
                &&& value.decimal() is None
            },
            _ => {
                &&& value.text() is None
                &&& value.whole() is None
                &&& value.truth() is None
                &&& value.decimal() is None
            },
        },
{
}

/// The amount is the number `mantissa / 10^scale`, in its one form.
pub open spec fn is_number(amount: Amount, parts: Option<(i128, u32)>) -> bool {
    parts matches Some((mantissa, scale)) && scale <= 28 && amount.normal() && amount.value()
        == mantissa * pow10((28 - scale) as nat)
}

/// A mantissa and a scale of at most 28 give the amount that is their number, and
/// nothing else gives one.
pub proof fn law_parts_give_their_number(parts: Option<(i128, u32)>)
    ensures
        match amount_of_parts(parts) {
            Some(amount) => is_number(amount, parts),
            None => !(parts matches Some((_, scale)) && scale <= 28),
        },
{
    if let Some((mantissa, scale)) = parts {
        if scale <= 28 {
            law_amount_is_exact(mantissa, scale);
        } else {
            assert(amount_of(mantissa, scale) is None);
        }
    }
}

/// A JSON value gives the amount that it is as a decimal.
pub proof fn law_json_amounts_are_their_number(value: JsonView)
    ensures
        match json_amount(value) {
            Some(amount) => is_number(amount, value.decimal()),
            None => !(value.decimal() matches Some((_, scale)) && scale <= 28),
        },
        match value {
            JsonView::Text(text) => spells_amount(value) == deserialized_decimal(text) is Some,
            JsonView::Number { decimal, .. } => spells_amount(value) == (decimal matches Some(
                (_, scale),
            ) && scale <= 28),
            _ => !spells_amount(value),
        },
{
    law_parts_give_their_number(value.decimal());
}

/// There is a mantissa with a scale that amounts have.
pub open spec fn fits(parts: Option<(i128, u32)>) -> bool {
    match parts {
        Some((_, scale)) => scale <= 28,
        None => false,
    }
}

/// An array whose first two items are strings.
pub open spec fn starts_with_texts(entry: JsonView) -> bool {
    entry is Array && entry->Array_0.len() >= 2 && entry->Array_0[0] is Text && entry->Array_0[1]
        is Text
}

/// A spot level is an array that starts with two strings: the first is the price, the
/// second the quantity.
pub proof fn law_spot_levels(entry: JsonView)
    ensures
        match level_of(entry, MarketType::Spot) {
            Some((price, quantity)) => {
                &&& entry matches JsonView::Array(items)
                &&& items.len() >= 2
                &&& items[0] matches JsonView::Text(first)
                &&& items[1] matches JsonView::Text(second)
                &&& is_number(price, parsed_decimal(first))
                &&& is_number(quantity, parsed_decimal(second))
            },
            None => !(starts_with_texts(entry) && fits(parsed_decimal(entry->Array_0[0]->Text_0))
                && fits(parsed_decimal(entry->Array_0[1]->Text_0))),
        },
        readable_level(entry, MarketType::Spot) <==> starts_with_texts(entry) && parsed_decimal(
            entry->Array_0[0]->Text_0,
        ) is Some && parsed_decimal(entry->Array_0[1]->Text_0) is Some,
{
    if let JsonView::Array(items) = entry {
        if items.len() >= 2 {
            if let JsonView::Text(first) = items[0] {
                law_parts_give_their_number(parsed_decimal(first));
            }
            if let JsonView::Text(second) = items[1] {
                law_parts_give_their_number(parsed_decimal(second));
            }
        }
    }
}

/// A futures level has its price under `p` and its quantity under `s`, or is an array
/// of the two.
pub proof fn law_future_levels(entry: JsonView)
    ensures
        match level_of(entry, MarketType::Future) {
            Some((price, quantity)) => match entry {
                JsonView::Object(members) => {
                    &&& members.contains_key("p"@)
                    &&& members.contains_key("s"@)
                    &&& is_number(price, members["p"@].decimal())
                    &&& is_number(quantity, members["s"@].decimal())
                },
                JsonView::Array(items) => {
                    &&& items.len() == 2
                    &&& is_number(price, items[0].decimal())
                    &&& is_number(quantity, items[1].decimal())
                },
                _ => false,
            },
            None => match entry {
                JsonView::Object(members) => !(members.contains_key("p"@) && members.contains_key(
                    "s"@,
                ) && fits(members["p"@].decimal()) && fits(members["s"@].decimal())),
                JsonView::Array(items) => !(items.len() == 2 && fits(items[0].decimal()) && fits(
                    items[1].decimal(),
                )),
                _ => true,
            },
        },
        match entry {
            JsonView::Object(members) => readable_level(entry, MarketType::Future)
                == (members.contains_key("p"@) && members.contains_key("s"@) && spells_amount(
                members["p"@],
            ) && spells_amount(members["s"@])),
            JsonView::Array(items) => readable_level(entry, MarketType::Future) == (items.len() == 2
                && spells_amount(items[0]) && spells_amount(items[1])),
            _ => !readable_level(entry, MarketType::Future),
        },
{
    match entry {
        JsonView::Object(members) => {
            law_parts_give_their_number(entry.field("p"@).decimal());
            law_parts_give_their_number(entry.field("s"@).decimal());
        },
        JsonView::Array(items) => {
            if items.len() == 2 {
                law_parts_give_their_number(items[0].decimal());
                law_parts_give_their_number(items[1].decimal());
            }
        },
        _ => {},
    }
}

/// An update that is read has a level for each entry under `a` among its asks and for
/// each entry under `b` among its bids, in their order, the ids under `U` and `u`, and
/// is a whole book where `full` is true.
pub proof fn law_update_holds_every_entry(
    fields: Map<Seq<char>, JsonView>,
    market: MarketType,
    update: UpdateView,
)
    requires
        update_of(JsonView::Object(fields), market) == Some(update),
    ensures
        fields.contains_key("a"@) && fields.contains_key("b"@),
        fields["a"@] matches JsonView::Array(entries) && update.asks.len() == entries.len()
            && forall|i: int|
            0 <= i < entries.len() ==> level_of(#[trigger] entries[i], market) == Some(
                update.asks[i],
            ),
        fields["b"@] matches JsonView::Array(entries) && update.bids.len() == entries.len()
            && forall|i: int|
            0 <= i < entries.len() ==> level_of(#[trigger] entries[i], market) == Some(
                update.bids[i],
            ),
        fields.contains_key("U"@) && fields.contains_key("u"@),
        fields["U"@] matches JsonView::Number { whole, .. } && whole == Some(
            update.first_update_id,
        ),
        fields["u"@] matches JsonView::Number { whole, .. } && whole == Some(
            update.last_update_id,
        ),
        update.full <==> fields.contains_key("full"@) && fields["full"@] == JsonView::Bool(true),
{
    law_levels_are_read_one_for_one(fields["a"@]->Array_0, market);
    law_levels_are_read_one_for_one(fields["b"@]->Array_0, market);
}

/// An update is read wherever both sides are arrays of levels and both ids are whole.
pub proof fn law_whole_updates_are_read(
    fields: Map<Seq<char>, JsonView>,
    asks: Seq<JsonView>,
    bids: Seq<JsonView>,
    market: MarketType,
)
    requires
        fields.contains_key("a"@) && fields["a"@] == JsonView::Array(asks),
        fields.contains_key("b"@) && fields["b"@] == JsonView::Array(bids),
    ensures
        update_of(JsonView::Object(fields), market) is Some <==> {
            &&& forall|i: int|
                0 <= i < asks.len() ==> level_of(#[trigger] asks[i], market) is Some
            &&& forall|i: int|
                0 <= i < bids.len() ==> level_of(#[trigger] bids[i], market) is Some
            &&& fields.contains_key("U"@) && fields["U"@] is Number && fields["U"@]->whole is Some
            &&& fields.contains_key("u"@) && fields["u"@] is Number && fields["u"@]->whole is Some
        },
        readable_update(JsonView::Object(fields), market) <==> {
            &&& forall|i: int|
                0 <= i < asks.len() ==> readable_level(#[trigger] asks[i], market)
            &&& forall|i: int|
                0 <= i < bids.len() ==> readable_level(#[trigger] bids[i], market)
            &&& fields.contains_key("U"@) && fields["U"@] is Number && fields["U"@]->whole is Some
            &&& fields.contains_key("u"@) && fields["u"@] is Number && fields["u"@]->whole is Some
        },
{
    law_levels_are_read_one_for_one(asks, market);
    law_levels_are_read_one_for_one(bids, market);
}

/// No update is read out of what is no object, or lacks one of the two arrays.
pub proof fn law_update_needs_both_sides(result: JsonView, market: MarketType)
    ensures
        update_of(result, market) is Some || readable_update(result, market) ==> (
        result matches JsonView::Object(fields) && fields.contains_key("a"@)
            && fields["a"@] is Array && fields.contains_key("b"@) && fields["b"@] is Array),
{
}

/// What stands before the first mark has none in it; with the mark and what stands
/// after it, it is the whole text. Without a mark the whole text stands before it.
pub proof fn law_text_is_cut_at_first_mark(text: Seq<char>, mark: char)
    ensures
        ({
            let before = before_mark(text, mark);
            let after = after_mark(text, mark);
            &&& forall|i: int| 0 <= i < before.len() ==> #[trigger] before[i] != mark
            &&& text.contains(mark) ==> before + seq![mark] + after == text
            &&& !text.contains(mark) ==> before == text && after.len() == 0
        }),
    decreases text.len(),
{
    if text.len() == 0 || text[0] == mark {
        assert(before_mark(text, mark) =~= Seq::empty());
        if text.len() > 0 {
            assert(text =~= Seq::<char>::empty() + seq![mark] + text.skip(1));
        }
    } else {
        let rest = text.drop_first();
        law_text_is_cut_at_first_mark(rest, mark);
        let place = cut(rest, mark);
        let before = before_mark(text, mark);
        lemma_cut_bound(rest, mark);
        assert(before =~= seq![text[0]] + before_mark(rest, mark));
        assert(after_mark(text, mark) =~= after_mark(rest, mark));
        assert forall|i: int| 0 <= i < before.len() implies #[trigger] before[i] != mark by {
            if i > 0 {
                assert(before[i] == before_mark(rest, mark)[i - 1]);
            }
        }
        if text.contains(mark) {
            let i = choose|i: int| 0 <= i < text.len() && text[i] == mark;
            assert(rest[i - 1] == mark);
            assert(text =~= seq![text[0]] + rest);
            assert(before + seq![mark] + after_mark(text, mark) =~= text);
        } else {
            assert(!rest.contains(mark)) by {
                if rest.contains(mark) {
                    let i = choose|i: int| 0 <= i < rest.len() && rest[i] == mark;
                    assert(text[i + 1] == mark);
                }
            }
            assert(before =~= text);
        }
    }
}

proof fn lemma_cut_bound(text: Seq<char>, mark: char)
    ensures
        cut(text, mark) <= text.len(),
    decreases text.len(),
{
    if text.len() > 0 && text[0] != mark {
        lemma_cut_bound(text.drop_first(), mark);
    }
}

/// The client's symbol is the base, a slash and the quote; on the futures market, a
/// colon and the quote again.
pub proof fn law_symbol_is_written(base: Seq<char>, quote: Seq<char>)
    ensures
        symbol_of(MarketType::Spot, base, quote) == base + seq!['/'] + quote,
        symbol_of(MarketType::Future, base, quote) == base + seq!['/'] + quote + seq![':'] + quote,
{
    reveal_strlit("/");
    reveal_strlit(":");
    assert("/"@ =~= seq!['/']);
    assert(":"@ =~= seq![':']);
}

/// The exchange's symbol for the client's drops the first colon and all after it, has
/// an underscore for the first slash, and is otherwise the same text.
pub proof fn law_symbol_is_normalized(
    pair: Seq<char>,
    settled: Seq<char>,
    base: Seq<char>,
    quote: Seq<char>,
)
    requires
        !pair.contains(':'),
        !base.contains(':') && !base.contains('/'),
        !quote.contains(':'),
    ensures
        normalized(pair + seq![':'] + settled) == normalized(pair),
        !pair.contains('/') ==> normalized(pair) == pair,
        normalized(base + seq!['/'] + quote) == base + seq!['_'] + quote,
{
    reveal_strlit("_");
    assert("_"@ =~= seq!['_']);
    let long = pair + seq![':'] + settled;
    assert forall|i: int| 0 <= i < pair.len() implies #[trigger] long[i] != ':' by {
        assert(long[i] == pair[i]);
        assert(pair.contains(pair[i]));
    }
    assert(long[pair.len() as int] == ':');
    lemma_cut(long, ':', pair.len());
    assert(before_mark(long, ':') =~= pair);
    law_text_is_cut_at_first_mark(pair, ':');
    law_text_is_cut_at_first_mark(pair, '/');
    if !pair.contains('/') {
        assert(cut(pair, '/') == pair.len()) by {
            lemma_cut_bound(pair, '/');
            assert(before_mark(pair, '/').len() == cut(pair, '/'));
        }
    }
    let both = base + seq!['/'] + quote;
    assert(!both.contains(':')) by {
        if both.contains(':') {
            let i = choose|i: int| 0 <= i < both.len() && both[i] == ':';
            if i < base.len() {
                assert(base[i] == ':');
            } else {
                assert(i > base.len());
                assert(quote[i - base.len() - 1] == ':');
            }
        }
    }
    law_text_is_cut_at_first_mark(both, ':');
    assert forall|i: int| 0 <= i < base.len() implies #[trigger] both[i] != '/' by {
        assert(both[i] == base[i]);
        assert(base.contains(base[i]));
    }
    assert(both[base.len() as int] == '/');
    lemma_cut(both, '/', base.len());
    assert(before_mark(both, '/') =~= base);
    assert(after_mark(both, '/') =~= quote);
}

/// A text has a mark where one of its characters is the mark.
pub proof fn law_marks_occur(text: Seq<char>, mark: char)
    ensures
        occurs(text, mark) == text.contains(mark),
{
    if occurs(text, mark) {
        let i = choose|i: int| 0 <= i < text.len() && #[trigger] text[i] == mark;
        assert(text[i] == mark);
    }
    if text.contains(mark) {
        let i = choose|i: int| 0 <= i < text.len() && text[i] == mark;
        assert(text[i] == mark);
    }
}

/// The exchange marks what can be traded: on the spot market by its trade status, on
/// the futures market by its status.
pub proof fn law_tradable_entries(entry: JsonView)
    ensures
        tradable(entry, MarketType::Spot) <==> (entry matches JsonView::Object(members)
            && members.contains_key("trade_status"@) && members["trade_status"@] == JsonView::Text(
            "tradable"@,
        )),
        tradable(entry, MarketType::Future) <==> (entry matches JsonView::Object(members)
            && members.contains_key("status"@) && members["status"@] == JsonView::Text(
            "trading"@,
        )),
{
}

/// The exchange's name of an entry: under `id` on the spot market, under `name` on the
/// futures market.
pub open spec fn has_name(entry: JsonView, market: MarketType, name: Seq<char>) -> bool {
    match market {
        MarketType::Spot => entry matches JsonView::Object(members) && members.contains_key("id"@)
            && members["id"@] == JsonView::Text(name),
        MarketType::Future => entry matches JsonView::Object(members) && members.contains_key(
            "name"@,
        ) && members["name"@] == JsonView::Text(name),
    }
}

/// The base of an asset is the exchange's name up to its first underscore, the quote
/// what comes after; its symbol is written of its own base and quote.
pub proof fn law_asset_is_named_by_entry(entry: JsonView, market: MarketType, name: Seq<char>)
    requires
        has_name(entry, market, name),
    ensures
        ({
            let asset = asset_of(entry, market);
            &&& !asset.base.contains('_')
            &&& name.contains('_') ==> asset.base + seq!['_'] + asset.quote == name
            &&& !name.contains('_') ==> asset.base == name && asset.quote.len() == 0
        }),
{
    law_text_is_cut_at_first_mark(name, '_');
    let base = before_mark(name, '_');
    assert(!base.contains('_')) by {
        if base.contains('_') {
            let i = choose|i: int| 0 <= i < base.len() && base[i] == '_';
            assert(base[i] != '_');
        }
    }
}

/// Every asset has a symbol of its own base and quote, the market that it was listed
/// on, and this exchange. Where the entry has no name, base and quote are empty.
pub proof fn law_asset_symbol_is_its_own(entry: JsonView, market: MarketType)
    ensures
        ({
            let asset = asset_of(entry, market);
            &&& market is Spot ==> asset.symbol == asset.base + seq!['/'] + asset.quote
            &&& market is Future ==> asset.symbol == asset.base + seq!['/'] + asset.quote
                + seq![':'] + asset.quote
            &&& asset.market == market
            &&& asset.exchange == "Gate"@
            &&& (forall|name: Seq<char>| !#[trigger] has_name(entry, market, name))
                ==> asset.base.len() == 0 && asset.quote.len() == 0
        }),
{
    let asset = asset_of(entry, market);
    law_symbol_is_written(asset.base, asset.quote);
    if forall|name: Seq<char>| !#[trigger] has_name(entry, market, name) {
        let value = match market {
            MarketType::Spot => entry.field("id"@),
            MarketType::Future => entry.field("name"@),
        };
        if let JsonView::Text(name) = value {
            assert(has_name(entry, market, name));
        }
    }
}

/// The assets of a list are those of its parts, one part after the other; a single
/// entry gives its asset where it can be traded, and otherwise none.
pub proof fn law_assets_come_in_order(
    first: Seq<JsonView>,
    second: Seq<JsonView>,
    entry: JsonView,
    market: MarketType,
)
    ensures
        assets_of(first + second, market) == assets_of(first, market) + assets_of(second, market),
        tradable(entry, market) ==> assets_of(seq![entry], market) == seq![asset_of(entry, market)],
        !tradable(entry, market) ==> assets_of(seq![entry], market).len() == 0,
    decreases second.len(),
{
    let one = seq![entry];
    let nothing = one.drop_last();
    assert(nothing.len() == 0 && one.last() == entry);
    assert(assets_of(nothing, market).len() == 0);
    assert(assets_of(nothing, market).push(asset_of(entry, market)) =~= seq![
        asset_of(entry, market),
    ]);
    if second.len() == 0 {
        assert(first + second =~= first);
        assert(assets_of(first, market) + assets_of(second, market) =~= assets_of(first, market));
    } else {
        assert((first + second).drop_last() =~= first + second.drop_last());
        assert((first + second).last() == second.last());
        law_assets_come_in_order(first, second.drop_last(), entry, market);
        assert(assets_of(first + second, market) =~= assets_of(first, market) + assets_of(
            second,
            market,
        ));
    }
}

/// The assets of an answer are those of the array that its text holds; another
/// document lists none, and what cannot be read is no answer.
pub proof fn law_answers_list_their_array(response: Seq<u8>, list: JsonView, market: MarketType)
    ensures
        answered(response, market) is Some <==> vstd::utf8::valid_utf8(response) && parsed_json(
            vstd::utf8::decode_utf8(response),
        ) is Some,
        answered(response, market) is Some ==> answered(response, market)->0 == listed_assets(
            parsed_json(vstd::utf8::decode_utf8(response))->0,
            market,
        ),
        list matches JsonView::Array(entries) ==> listed_assets(list, market) == assets_of(
            entries,
            market,
        ),
        !(list is Array) ==> listed_assets(list, market).len() == 0,
{
}

/// Of the assets with one symbol the last one counts.
pub proof fn law_last_asset_counts(assets: Seq<AssetView>, symbol: Seq<char>, last: int)
    requires
        -1 <= last < assets.len(),
        last >= 0 ==> assets[last].symbol == symbol,
        forall|i: int| last < i < assets.len() ==> (#[trigger] assets[i]).symbol != symbol,
    ensures
        by_symbol(assets).contains_key(symbol) == (last >= 0),
        last >= 0 ==> by_symbol(assets)[symbol] == assets[last],
    decreases assets.len(),
{
    if assets.len() > 0 && last < assets.len() - 1 {
        let rest = assets.drop_last();
        assert(assets.last().symbol != symbol);
        assert forall|i: int| last < i < rest.len() implies (#[trigger] rest[i]).symbol
            != symbol by {
            assert(rest[i] == assets[i]);
        }
        if last >= 0 {
            assert(rest[last] == assets[last]);
        }
        law_last_asset_counts(rest, symbol, last);
    }
}

/// Assets are told apart, and found, by their symbols.
pub proof fn law_symbols_tell_assets_apart(assets: Seq<AssetView>, symbol: Seq<char>)
    ensures
        lists_symbol(assets, symbol) <==> exists|i: int|
            0 <= i < assets.len() && (#[trigger] assets[i]).symbol == symbol,
        distinct_symbols(assets) <==> forall|i: int, j: int|
            #![trigger assets[i], assets[j]]
            0 <= i < assets.len() && 0 <= j < assets.len() && i != j ==> assets[i].symbol
                != assets[j].symbol,
{
    if distinct_symbols(assets) {
        assert forall|i: int, j: int|
            #![trigger assets[i], assets[j]]
            0 <= i < assets.len() && 0 <= j < assets.len() && i != j implies assets[i].symbol
            != assets[j].symbol by {
            if i < j {
                assert(assets[i].symbol != assets[j].symbol);
            } else {
                assert(assets[j].symbol != assets[i].symbol);
            }
        }
    }
}

/// What is kept after a fetch is what both markets listed, where both did.
pub proof fn law_both_markets_are_kept(
    before: AssetsView,
    spot: Seq<AssetView>,
    future: Seq<AssetView>,
)
    ensures
        kept_assets(before, Some(spot), Some(future)).spot == by_symbol(spot),
        kept_assets(before, Some(spot), Some(future)).future == by_symbol(future),
{
}

/// Assets are seen as what their fields hold, and a list of them one for one.
pub proof fn law_assets_are_their_fields(
    asset: Asset,
    assets: Seq<Asset>,
    i: int,
    both: Assets,
    outcome: Result<Vec<Asset>, ExchangeError>,
)
    ensures
        asset@.symbol == asset.symbol@,
        asset@.base == asset.base@,
        asset@.quote == asset.quote@,
        asset@.market == asset.market,
        asset@.exchange == asset.exchange@,
        asset_views(assets).len() == assets.len(),
        0 <= i < assets.len() ==> asset_views(assets)[i] == assets[i]@,
        both@.spot == both.spot@,
        both@.future == both.future@,
        outcome matches Ok(found) ==> fetched(outcome) == Some(asset_views(found@)),
        outcome is Err ==> fetched(outcome) is None,
{
}

} // verus!
