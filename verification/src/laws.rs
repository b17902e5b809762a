//! What holds of the books as a whole.

use vstd::prelude::*;

use crate::amount::{zero_amount, Amount};
use crate::asset::{
    answered, asset_of, assets_of, by_symbol, kept_assets, lemma_listed_symbols, lists_symbol,
    tradable, AssetView, AssetsView,
};
use crate::gate::{
    after_attempt, after_fetch, after_message, after_update, first_continuing, replayed, AlignView,
    GateView, StepView, MAX_RETRIES,
};
use crate::history::{first_outside, noted, noted_levels, outside};
use crate::json::JsonView;
use crate::market::MarketType;
use crate::order::{applied, collected, continues, BookView, UpdateView};
use crate::snapshot::{fetch_step, FetchStepView, FetchView, MAX_REQUESTS};
use crate::symbol::{normalized, occurs, symbol_of};
use crate::text::{after_mark, before_mark, cut, lemma_cut};
use crate::update::{level_of, levels_of};

verus! {

/// Of the changes of a price the last one counts: it sets the quantity, or takes
/// the price away where the quantity is zero. Other prices stay as they are.
pub proof fn law_last_change_counts(
    levels: Map<Amount, Amount>,
    changes: Seq<(Amount, Amount)>,
    price: Amount,
    last: int,
)
    requires
        -1 <= last < changes.len(),
        last >= 0 ==> changes[last].0 == price,
        forall|i: int| last < i < changes.len() ==> (#[trigger] changes[i]).0 != price,
    ensures
        applied(levels, changes).contains_key(price) == if last >= 0 {
            changes[last].1 != zero_amount()
        } else {
            levels.contains_key(price)
        },
        applied(levels, changes).contains_key(price) ==> applied(levels, changes)[price] == if last
            >= 0 {
            changes[last].1
        } else {
            levels[price]
        },
    decreases changes.len(),
{
    if changes.len() > 0 && last < changes.len() - 1 {
        let rest = changes.drop_last();
        assert(changes.last().0 != price);
        assert forall|i: int| last < i < rest.len() implies (#[trigger] rest[i]).0 != price by {
            assert(rest[i] == changes[i]);
        }
        if last >= 0 {
            assert(rest[last] == changes[last]);
        }
        law_last_change_counts(levels, rest, price, last);
    }
}

/// Of a snapshot's entries for a price the last one counts, whatever its quantity;
/// a price without an entry is not in the book.
pub proof fn law_last_entry_counts(pairs: Seq<(Amount, Amount)>, price: Amount, last: int)
    requires
        -1 <= last < pairs.len(),
        last >= 0 ==> pairs[last].0 == price,
        forall|i: int| last < i < pairs.len() ==> (#[trigger] pairs[i]).0 != price,
    ensures
        collected(pairs).contains_key(price) == (last >= 0),
        last >= 0 ==> collected(pairs)[price] == pairs[last].1,
    decreases pairs.len(),
{
    if pairs.len() > 0 && last < pairs.len() - 1 {
        let rest = pairs.drop_last();
        assert(pairs.last().0 != price);
        assert forall|i: int| last < i < rest.len() implies (#[trigger] rest[i]).0 != price by {
            assert(rest[i] == pairs[i]);
        }
        if last >= 0 {
            assert(rest[last] == pairs[last]);
        }
        law_last_entry_counts(rest, price, last);
    }
}

/// The last change of a price in a list; -1 where there is none.
proof fn find_last(changes: Seq<(Amount, Amount)>, price: Amount) -> (last: int)
    ensures
        -1 <= last < changes.len(),
        last >= 0 ==> changes[last].0 == price,
        forall|i: int| last < i < changes.len() ==> (#[trigger] changes[i]).0 != price,
    decreases changes.len(),
{
    if changes.len() == 0 {
        -1
    } else if changes.last().0 == price {
        changes.len() - 1
    } else {
        let rest = changes.drop_last();
        let last = find_last(rest, price);
        if last >= 0 {
            assert(rest[last] == changes[last]);
        }
        assert forall|i: int| last < i < changes.len() implies (#[trigger] changes[i]).0
            != price by {
            if i < changes.len() - 1 {
                assert(rest[i] == changes[i]);
            }
        }
        last
    }
}

/// To make a list of changes twice is to make it once.
pub proof fn law_changes_are_idempotent(
    levels: Map<Amount, Amount>,
    changes: Seq<(Amount, Amount)>,
)
    ensures
        applied(applied(levels, changes), changes) == applied(levels, changes),
{
    let once = applied(levels, changes);
    let twice = applied(once, changes);
    assert forall|price: Amount|
        twice.contains_key(price) == once.contains_key(price) && (once.contains_key(price)
            ==> #[trigger] twice[price] == once[price]) by {
        let last = find_last(changes, price);
        law_last_change_counts(levels, changes, price, last);
        law_last_change_counts(once, changes, price, last);
    }
    assert forall|price: Amount| twice.dom().contains(price) == once.dom().contains(price) by {
        let seen = twice[price];
    }
    assert(twice =~= once);
}

/// To make two lists of changes is to make the one list of both.
pub proof fn law_changes_compose(
    levels: Map<Amount, Amount>,
    first: Seq<(Amount, Amount)>,
    second: Seq<(Amount, Amount)>,
)
    ensures
        applied(applied(levels, first), second) == applied(levels, first + second),
    decreases second.len(),
{
    if second.len() == 0 {
        assert(first + second =~= first);
    } else {
        assert((first + second).drop_last() =~= first + second.drop_last());
        law_changes_compose(levels, first, second.drop_last());
    }
}

/// A book that follows an update has made progress.
pub proof fn law_updates_advance(book: BookView, update: UpdateView)
    requires
        continues(book.update_id, update),
    ensures
        book.updated(update).update_id > book.update_id,
{
}

/// Updates that follow one another without a gap, from a book at `update_id` on.
pub open spec fn chained(update_id: u64, updates: Seq<UpdateView>) -> bool
    decreases updates.len(),
{
    updates.len() == 0 || (continues(update_id, updates[0]) && chained(
        updates[0].last_update_id,
        updates.drop_first(),
    ))
}

/// All changes of asks, in the order of the updates.
pub open spec fn all_asks(updates: Seq<UpdateView>) -> Seq<(Amount, Amount)>
    decreases updates.len(),
{
    if updates.len() == 0 {
        Seq::empty()
    } else {
        updates[0].asks + all_asks(updates.drop_first())
    }
}

/// All changes of bids, in the order of the updates.
pub open spec fn all_bids(updates: Seq<UpdateView>) -> Seq<(Amount, Amount)>
    decreases updates.len(),
{
    if updates.len() == 0 {
        Seq::empty()
    } else {
        updates[0].bids + all_bids(updates.drop_first())
    }
}

/// Where the updates follow one another without a gap, a replay makes all their
/// changes and leaves the book at the id of the last.
pub proof fn law_replay_of_chain(book: BookView, history: Set<Amount>, updates: Seq<UpdateView>)
    requires
        chained(book.update_id, updates),
    ensures
        replayed(book, history, updates).0 == (BookView {
            asks: applied(book.asks, all_asks(updates)),
            bids: applied(book.bids, all_bids(updates)),
            update_id: if updates.len() > 0 {
                updates.last().last_update_id
            } else {
                book.update_id
            },
        }),
    decreases updates.len(),
{
    if updates.len() > 0 {
        let rest = updates.drop_first();
        law_replay_of_chain(book.updated(updates[0]), noted(history, updates[0].bids), rest);
        law_changes_compose(book.asks, updates[0].asks, all_asks(rest));
        law_changes_compose(book.bids, updates[0].bids, all_bids(rest));
        if rest.len() > 0 {
            assert(rest.last() == updates.last());
        }
    }
}

/// Every bid of a book is at a price that its history holds.
pub open spec fn bids_noted(bids: Map<Amount, Amount>, history: Set<Amount>) -> bool {
    forall|price: Amount| #[trigger] bids.contains_key(price) ==> history.contains(price)
}

/// Every bid of a symbol's book is at a price that the symbol has named.
pub open spec fn symbol_noted(gate: GateView, symbol: Seq<char>) -> bool {
    bids_noted(gate.books[gate.feeds[symbol].book].bids, gate.feeds[symbol].history)
}

/// When bids are noted as they are changed, none is left out.
pub proof fn law_changes_stay_noted(
    bids: Map<Amount, Amount>,
    history: Set<Amount>,
    changes: Seq<(Amount, Amount)>,
)
    requires
        bids_noted(bids, history),
    ensures
        bids_noted(applied(bids, changes), noted(history, changes)),
    decreases changes.len(),
{
    if changes.len() > 0 {
        law_changes_stay_noted(bids, history, changes.drop_last());
    }
}

/// A replay notes the bids that it changes.
proof fn lemma_replay_stays_noted(book: BookView, history: Set<Amount>, updates: Seq<UpdateView>)
    requires
        bids_noted(book.bids, history),
    ensures
        bids_noted(
            replayed(book, history, updates).0.bids,
            replayed(book, history, updates).1,
        ),
    decreases updates.len(),
{
    if updates.len() > 0 && continues(book.update_id, updates[0]) {
        law_changes_stay_noted(book.bids, history, updates[0].bids);
        lemma_replay_stays_noted(
            book.updated(updates[0]),
            noted(history, updates[0].bids),
            updates.drop_first(),
        );
    }
}

/// Every bid of every book in use is at a price that the book's symbol has named.
pub open spec fn all_noted(gate: GateView) -> bool {
    forall|symbol: Seq<char>| #[trigger]
        gate.feeds.contains_key(symbol) ==> symbol_noted(gate, symbol)
}

/// Where an update sets a book up by itself, its bids were noted before.
pub open spec fn first_full_is_noted(
    gate: GateView,
    symbol: Seq<char>,
    update: UpdateView,
) -> bool {
    let feed = gate.feeds[symbol];
    let book = gate.books[feed.book];
    update.full && book.update_id == 0 ==> bids_noted(book.updated(update).bids, feed.history)
}

proof fn lemma_update_keeps_bids_noted(gate: GateView, symbol: Seq<char>, update: UpdateView)
    requires
        gate.consistent(),
        gate.feeds.contains_key(symbol),
        symbol_noted(gate, symbol),
        first_full_is_noted(gate, symbol, update),
    ensures
        symbol_noted(after_update(gate, symbol, update).0, symbol),
        !(after_update(gate, symbol, update).1 is BidOutsideHistory),
{
    let feed = gate.feeds[symbol];
    let book = gate.books[feed.book];
    law_changes_stay_noted(book.bids, feed.history, update.bids);
    let history = noted(feed.history, update.bids);
    let bids = applied(book.bids, update.bids);
    assert(first_outside(history, bids) is None) by {
        assert forall|price: Amount| !outside(history, bids, price) by {}
    }
}

/// An update keeps every bid at a price that its symbol has named, and then
/// reports no bid outside. The exception is an update that sets a book up by
/// itself: its bids are not noted, and may be at prices without a note.
pub proof fn law_update_keeps_bids_noted(gate: GateView, symbol: Seq<char>, update: UpdateView)
    requires
        gate.consistent(),
        gate.feeds.contains_key(symbol),
        all_noted(gate),
        first_full_is_noted(gate, symbol, update),
    ensures
        all_noted(after_update(gate, symbol, update).0),
        !(after_update(gate, symbol, update).1 is BidOutsideHistory),
{
    let next = after_update(gate, symbol, update).0;
    lemma_update_keeps_bids_noted(gate, symbol, update);
    assert forall|other: Seq<char>| #[trigger] next.feeds.contains_key(other) implies symbol_noted(
        next,
        other,
    ) by {
        if other != symbol {
            assert(gate.feeds.contains_key(other));
            law_update_leaves_others(gate, symbol, update, other);
        }
    }
}

/// The end of a fetch, and each attempt after it, keeps every bid at a price that
/// its symbol has named, where the snapshot lists no bid without a quantity.
pub proof fn law_attempt_keeps_bids_noted(gate: GateView, task: AlignView)
    requires
        gate.consistent(),
        gate.feeds.contains_key(task.symbol),
        task.book == gate.feeds[task.symbol].book,
        all_noted(gate),
        forall|price: Amount| #[trigger]
            task.snapshot.bids.contains_key(price) ==> task.snapshot.bids[price] != zero_amount(),
    ensures
        all_noted(after_attempt(gate, task).0),
        all_noted(after_fetch(gate, task.symbol, task.book, None).0),
        all_noted(after_fetch(gate, task.symbol, task.book, Some(task.snapshot)).0),
{
    let first = AlignView { retries: 0, ..task };
    lemma_attempt_keeps_all_noted(gate, task);
    lemma_attempt_keeps_all_noted(gate, first);
    let failed = after_fetch(gate, task.symbol, task.book, None).0;
    assert forall|other: Seq<char>| #[trigger] failed.feeds.contains_key(
        other,
    ) implies symbol_noted(failed, other) by {
        assert(gate.feeds.contains_key(other));
        assert(symbol_noted(gate, other));
    }
}

proof fn lemma_attempt_keeps_all_noted(gate: GateView, task: AlignView)
    requires
        gate.consistent(),
        gate.feeds.contains_key(task.symbol),
        task.book == gate.feeds[task.symbol].book,
        all_noted(gate),
        forall|price: Amount| #[trigger]
            task.snapshot.bids.contains_key(price) ==> task.snapshot.bids[price] != zero_amount(),
    ensures
        all_noted(after_attempt(gate, task).0),
{
    let next = after_attempt(gate, task).0;
    lemma_attempt_keeps_bids_noted(gate, task);
    assert forall|other: Seq<char>| #[trigger] next.feeds.contains_key(other) implies symbol_noted(
        next,
        other,
    ) by {
        if other != task.symbol {
            assert(gate.feeds.contains_key(other));
            law_attempt_leaves_others(gate, task, other);
        }
    }
}

proof fn lemma_attempt_keeps_bids_noted(gate: GateView, task: AlignView)
    requires
        gate.consistent(),
        gate.feeds.contains_key(task.symbol),
        task.book == gate.feeds[task.symbol].book,
        symbol_noted(gate, task.symbol),
        forall|price: Amount| #[trigger]
            task.snapshot.bids.contains_key(price) ==> task.snapshot.bids[price] != zero_amount(),
    ensures
        symbol_noted(after_attempt(gate, task).0, task.symbol),
{
    let feed = gate.feeds[task.symbol];
    let start = first_continuing(feed.pending, task.snapshot.update_id);
    let history = noted_levels(feed.history, task.snapshot.bids);
    assert(bids_noted(task.snapshot.bids, history));
    lemma_replay_stays_noted(task.snapshot, history, feed.pending.skip(start as int));
}

/// To watch a symbol keeps every bid at a price that its symbol has named.
pub proof fn law_watching_keeps_bids_noted(gate: GateView, symbol: Seq<char>)
    requires
        gate.consistent(),
        all_noted(gate),
    ensures
        gate.watching(symbol).consistent(),
        all_noted(gate.watching(symbol)),
{
    let next = gate.watching(symbol);
    assert forall|other: Seq<char>| #[trigger] next.feeds.contains_key(other) implies symbol_noted(
        next,
        other,
    ) by {
        if other != symbol {
            assert(gate.feeds.contains_key(other));
            assert(symbol_noted(gate, other));
        }
    }
}

/// What an update does to one symbol leaves every other symbol as it was.
pub proof fn law_update_leaves_others(
    gate: GateView,
    symbol: Seq<char>,
    update: UpdateView,
    other: Seq<char>,
)
    requires
        gate.consistent(),
        gate.feeds.contains_key(symbol),
        gate.feeds.contains_key(other),
        other != symbol,
    ensures
        ({
            let next = after_update(gate, symbol, update).0;
            &&& next.consistent()
            &&& next.feeds.contains_key(other)
            &&& next.feeds[other] == gate.feeds[other]
            &&& next.books[next.feeds[other].book] == gate.books[gate.feeds[other].book]
        }),
{
    assert(gate.feeds[symbol].book != gate.feeds[other].book);
}

/// A book that only this symbol can have.
pub open spec fn set_apart(gate: GateView, symbol: Seq<char>, book: int) -> bool {
    &&& 0 <= book < gate.books.len()
    &&& forall|other: Seq<char>| #[trigger]
        gate.feeds.contains_key(other) && gate.feeds[other].book == book ==> other == symbol
}

/// The book that a snapshot is fetched for is one that only its symbol can have.
pub proof fn law_fetched_book_is_set_apart(gate: GateView, symbol: Seq<char>, update: UpdateView)
    requires
        gate.consistent(),
        gate.feeds.contains_key(symbol),
    ensures
        after_update(gate, symbol, update).1 matches StepView::FetchSnapshot {
            symbol: fetched,
            book,
            ..
        } ==> fetched == symbol && set_apart(after_update(gate, symbol, update).0, symbol, book),
{
}

/// A book that only one symbol can have stays that symbol's, whatever happens
/// while its snapshot is on the way: updates, attempts, and watching, even of the
/// same symbol again.
pub proof fn law_books_stay_set_apart(
    gate: GateView,
    symbol: Seq<char>,
    book: int,
    active: Seq<char>,
    update: UpdateView,
    task: AlignView,
)
    requires
        gate.consistent(),
        set_apart(gate, symbol, book),
    ensures
        gate.feeds.contains_key(active) ==> set_apart(
            after_update(gate, active, update).0,
            symbol,
            book,
        ),
        set_apart(after_attempt(gate, task).0, symbol, book),
        set_apart(after_fetch(gate, task.symbol, task.book, None).0, symbol, book),
        set_apart(gate.watching(active), symbol, book),
{
}

/// What an attempt does to set one symbol's book up leaves every other symbol as
/// it was.
pub proof fn law_attempt_leaves_others(gate: GateView, task: AlignView, other: Seq<char>)
    requires
        gate.consistent(),
        set_apart(gate, task.symbol, task.book),
        gate.feeds.contains_key(other),
        other != task.symbol,
    ensures
        ({
            let next = after_attempt(gate, task).0;
            &&& next.consistent()
            &&& next.feeds.contains_key(other)
            &&& next.feeds[other] == gate.feeds[other]
            &&& next.books[next.feeds[other].book] == gate.books[gate.feeds[other].book]
        }),
{
}

/// A message that is ignored or refused changes nothing.
pub proof fn law_refused_messages_change_nothing(gate: GateView, message: JsonView)
    requires
        ({
            let outcome = after_message(gate, message).1;
            outcome is Err || outcome == Ok::<StepView, crate::gate::MessageError>(
                StepView::Ignored,
            )
        }),
    ensures
        after_message(gate, message).0 == gate,
{
}

/// The attempts to set a book up are numbered and come to an end: each pause
/// leads to the next attempt with the same snapshot, and after the last there is
/// no pause.
pub proof fn law_attempts_end(gate: GateView, task: AlignView)
    ensures
        after_attempt(gate, task).1 matches StepView::Sleep(next) ==> {
            &&& task.retries < MAX_RETRIES
            &&& next == AlignView { retries: (task.retries + 1) as u32, ..task }
        },
        task.retries >= MAX_RETRIES ==> !(after_attempt(gate, task).1 is Sleep),
        !(after_attempt(gate, task).1 is FetchSnapshot),
        !(after_attempt(gate, task).1 is BidOutsideHistory),
{
}

/// The first continuing update is one that continues.
pub(crate) proof fn lemma_continuing(updates: Seq<UpdateView>, update_id: u64)
    ensures
        first_continuing(updates, update_id) <= updates.len(),
        first_continuing(updates, update_id) < updates.len() ==> continues(
            update_id,
            updates[first_continuing(updates, update_id) as int],
        ),
    decreases updates.len(),
{
    if updates.len() > 0 && !continues(update_id, updates[0]) {
        lemma_continuing(updates.drop_first(), update_id);
    }
}

/// A replay leaves a book marked as not set up, or at no earlier id.
proof fn lemma_replay_advances(book: BookView, history: Set<Amount>, updates: Seq<UpdateView>)
    ensures
        ({
            let id = replayed(book, history, updates).0.update_id;
            id == 0 || id >= book.update_id
        }),
    decreases updates.len(),
{
    if updates.len() > 0 && continues(book.update_id, updates[0]) {
        lemma_replay_advances(
            book.updated(updates[0]),
            noted(history, updates[0].bids),
            updates.drop_first(),
        );
    }
}

/// A book that an attempt has set up is ahead of the snapshot: at least one
/// waiting update was made to it. Otherwise it is marked as not set up.
pub proof fn law_set_up_book_is_ahead(gate: GateView, task: AlignView)
    requires
        0 <= task.book < gate.books.len(),
        gate.feeds.contains_key(task.symbol),
        after_attempt(gate, task).1 is Done,
    ensures
        ({
            let id = after_attempt(gate, task).0.books[task.book].update_id;
            id == 0 || id > task.snapshot.update_id
        }),
{
    if task.retries < MAX_RETRIES {
        let feed = gate.feeds[task.symbol];
        let start = first_continuing(feed.pending, task.snapshot.update_id);
        lemma_continuing(feed.pending, task.snapshot.update_id);
        let rest = feed.pending.skip(start as int);
        let history = noted_levels(feed.history, task.snapshot.bids);
        assert(rest[0] == feed.pending[start as int]);
        lemma_replay_advances(
            task.snapshot.updated(rest[0]),
            noted(history, rest[0].bids),
            rest.drop_first(),
        );
    }
}

/// A fetch ends with a snapshot at the wanted id or later, or with none.
pub proof fn law_fetched_snapshot_is_recent(fetch: FetchView, snapshot: BookView)
    ensures
        fetch_step(fetch, snapshot) matches FetchStepView::Finished(book) ==> book == snapshot
            && book.update_id >= fetch.first_update_id,
        snapshot.update_id >= fetch.first_update_id ==> fetch_step(fetch, snapshot) is Finished,
{
}

/// A fetch asks at most `MAX_REQUESTS` times: each request is counted, and after
/// the last there is none.
pub proof fn law_requests_end(fetch: FetchView, snapshot: BookView)
    ensures
        fetch_step(fetch, snapshot) matches FetchStepView::Request(next, _) ==> next == fetch
            && fetch.requests < MAX_REQUESTS,
        fetch.requests >= MAX_REQUESTS ==> !(fetch_step(fetch, snapshot) is Request),
{
}

/// The levels of a message come out one for one, in the message's order; one entry
/// that is no level spoils them all.
pub proof fn law_levels_are_read_one_for_one(entries: Seq<JsonView>, market: MarketType)
    ensures
        match levels_of(entries, market) {
            Some(levels) => levels.len() == entries.len() && forall|i: int|
                0 <= i < entries.len() ==> level_of(#[trigger] entries[i], market) == Some(
                    levels[i],
                ),
            None => exists|i: int|
                0 <= i < entries.len() && level_of(#[trigger] entries[i], market) is None,
        },
    decreases entries.len(),
{
    if entries.len() > 0 {
        let rest = entries.drop_last();
        law_levels_are_read_one_for_one(rest, market);
        match levels_of(rest, market) {
            Some(levels) => {
                if level_of(entries.last(), market) is Some {
                    assert forall|i: int| 0 <= i < entries.len() implies level_of(
                        #[trigger] entries[i],
                        market,
                    ) == Some(levels_of(entries, market)->0[i]) by {
                        if i < rest.len() {
                            assert(rest[i] == entries[i]);
                        }
                    }
                } else {
                    assert(level_of(entries[entries.len() - 1], market) is None);
                }
            },
            None => {
                let i = choose|i: int|
                    0 <= i < rest.len() && level_of(#[trigger] rest[i], market) is None;
                assert(entries[i] == rest[i]);
            },
        }
    }
}

/// An asset is listed exactly when an entry that can be traded describes it.
pub proof fn law_tradable_entries_are_listed(
    entries: Seq<JsonView>,
    market: MarketType,
    asset: AssetView,
)
    ensures
        assets_of(entries, market).contains(asset) == exists|i: int|
            0 <= i < entries.len() && tradable(#[trigger] entries[i], market) && asset_of(
                entries[i],
                market,
            ) == asset,
    decreases entries.len(),
{
    let assets = assets_of(entries, market);
    if entries.len() > 0 {
        let rest = entries.drop_last();
        let before = assets_of(rest, market);
        law_tradable_entries_are_listed(rest, market, asset);
        if before.contains(asset) {
            let i = choose|i: int|
                0 <= i < rest.len() && tradable(#[trigger] rest[i], market) && asset_of(
                    rest[i],
                    market,
                ) == asset;
            assert(entries[i] == rest[i]);
            let k = choose|k: int| 0 <= k < before.len() && before[k] == asset;
            assert(assets[k] == asset);
        } else {
            assert forall|i: int|
                0 <= i < rest.len() && tradable(#[trigger] entries[i], market) implies asset_of(
                entries[i],
                market,
            ) != asset by {
                assert(rest[i] == entries[i]);
            }
            if tradable(entries.last(), market) {
                assert(entries[entries.len() - 1] == entries.last());
                assert(assets[assets.len() - 1] == asset_of(entries.last(), market));
                if assets.contains(asset) {
                    let k = choose|k: int| 0 <= k < assets.len() && assets[k] == asset;
                    if k < before.len() {
                        assert(before[k] == asset);
                    }
                }
            }
        }
    }
}

/// After a fetch that both markets answered, the kept assets are those of its
/// answers alone: whatever was kept before, equal answers lead to equal assets, and
/// a symbol is kept exactly when these answers list it.
pub proof fn law_last_answers_alone_are_kept(
    before: AssetsView,
    other: AssetsView,
    spot: Seq<u8>,
    future: Seq<u8>,
    symbol: Seq<char>,
)
    requires
        answered(spot, MarketType::Spot) is Some,
        answered(future, MarketType::Future) is Some,
    ensures
        ({
            let spot = answered(spot, MarketType::Spot);
            let future = answered(future, MarketType::Future);
            let kept = kept_assets(before, spot, future);
            &&& kept == kept_assets(other, spot, future)
            &&& kept.spot.contains_key(symbol) == lists_symbol(spot->0, symbol)
            &&& kept.future.contains_key(symbol) == lists_symbol(future->0, symbol)
        }),
{
    lemma_listed_symbols(answered(spot, MarketType::Spot)->0, symbol);
    lemma_listed_symbols(answered(future, MarketType::Future)->0, symbol);
}

/// Of two fetches that both markets answered, only the second leaves a trace in
/// the kept assets: a symbol that only the first listed is gone.
pub proof fn law_second_fetch_replaces_first(
    before: AssetsView,
    first_spot: Seq<u8>,
    first_future: Seq<u8>,
    spot: Seq<u8>,
    future: Seq<u8>,
    symbol: Seq<char>,
)
    requires
        answered(spot, MarketType::Spot) is Some,
        answered(future, MarketType::Future) is Some,
    ensures
        ({
            let first = kept_assets(
                before,
                answered(first_spot, MarketType::Spot),
                answered(first_future, MarketType::Future),
            );
            let listed_spot = answered(spot, MarketType::Spot)->0;
            let listed_future = answered(future, MarketType::Future)->0;
            let second = kept_assets(first, Some(listed_spot), Some(listed_future));
            &&& second == (AssetsView {
                spot: by_symbol(listed_spot),
                future: by_symbol(listed_future),
            })
            &&& first.spot.contains_key(symbol) && !lists_symbol(listed_spot, symbol)
                ==> !second.spot.contains_key(symbol)
            &&& first.future.contains_key(symbol) && !lists_symbol(listed_future, symbol)
                ==> !second.future.contains_key(symbol)
        }),
{
    lemma_listed_symbols(answered(spot, MarketType::Spot)->0, symbol);
    lemma_listed_symbols(answered(future, MarketType::Future)->0, symbol);
}

/// A fetch that a market did not answer leaves the kept assets as they were.
pub proof fn law_failed_fetch_keeps_assets(
    before: AssetsView,
    spot: Option<Seq<AssetView>>,
    future: Option<Seq<AssetView>>,
)
    requires
        spot is None || future is None,
    ensures
        kept_assets(before, spot, future) == before,
{
}

/// The client's symbol leads back to the exchange's name that it was made from,
/// where that name has an underscore, no slash before it and no colon.
pub proof fn law_symbol_round_trip(market: MarketType, name: Seq<char>)
    requires
        occurs(name, '_'),
        !occurs(before_mark(name, '_'), '/'),
        !occurs(name, ':'),
    ensures
        normalized(symbol_of(market, before_mark(name, '_'), after_mark(name, '_'))) == name,
{
    reveal_strlit("/");
    reveal_strlit(":");
    reveal_strlit("_");
    let base = before_mark(name, '_');
    let quote = after_mark(name, '_');
    let place = lemma_has(name, '_');
    let pair = base + "/"@ + quote;
    let symbol = symbol_of(market, base, quote);
    assert(base =~= name.take(place as int));
    assert(quote =~= name.skip(place as int + 1));
    assert forall|i: int| 0 <= i < pair.len() implies #[trigger] pair[i] != ':' by {
        if i != place {
            assert(pair[i] == name[i]);
        }
    }
    assert(symbol.take(pair.len() as int) =~= pair);
    assert forall|i: int| 0 <= i < pair.len() implies #[trigger] symbol[i] != ':' by {
        assert(symbol[i] == pair[i]);
    }
    lemma_cut(symbol, ':', pair.len());
    assert(before_mark(symbol, ':') =~= pair);
    assert forall|i: int| 0 <= i < place implies #[trigger] pair[i] != '/' by {
        assert(pair[i] == base[i]);
    }
    lemma_cut(pair, '/', place);
    assert(before_mark(pair, '/') =~= base);
    assert(after_mark(pair, '/') =~= quote);
    assert(base + "_"@ + quote =~= name);
}

/// A mark that a text has is found within it.
proof fn lemma_has(text: Seq<char>, mark: char) -> (place: nat)
    requires
        occurs(text, mark),
    ensures
        place == cut(text, mark),
        place < text.len(),
        text[place as int] == mark,
    decreases text.len(),
{
    if text[0] == mark {
        0
    } else {
        let rest = text.drop_first();
        let i = choose|i: int| 0 <= i < text.len() && #[trigger] text[i] == mark;
        assert(rest[i - 1] == mark);
        lemma_has(rest, mark) + 1
    }
}

} // verus!
