//! What messages, snapshots and pauses do to the books of a connection.

use vstd::prelude::*;

use crate::amount::Amount;
use crate::gate::{
    after_attempt, after_fetch, after_message, after_update, lemma_first_continuing, names_watched,
    replayed, subscription, AlignTask, AlignView, GateView, MessageError, Step, StepView,
    MAX_RETRIES, RETRY_PAUSE_MILLIS,
};
use crate::history::{first_outside, highest_outside, noted, noted_levels, outside};
use crate::json::JsonView;
use crate::laws::{all_asks, all_bids, law_changes_compose};
use crate::market::MarketType;
use crate::order::{applied, continues, BookView, UpdateView};
use crate::update::update_of;

verus! {

/// An update continues a book exactly when the id after the book's lies between the
/// update's first and last.
pub proof fn law_continuing_holds_next_id(update_id: u64, update: UpdateView)
    ensures
        continues(update_id, update) <==> update.first_update_id as int <= update_id as int + 1
            && update.last_update_id as int >= update_id as int + 1,
{
}

/// A live book follows every update that holds the change after the book's id,
/// whatever else it holds: all its changes are made, to asks and bids alike, its bids
/// are noted, and the book is at the update's last id.
pub proof fn law_live_book_follows_update(gate: GateView, symbol: Seq<char>, update: UpdateView)
    requires
        gate.consistent(),
        gate.feeds.contains_key(symbol),
        gate.books[gate.feeds[symbol].book].update_id > 1,
        update.first_update_id <= gate.books[gate.feeds[symbol].book].update_id + 1
            <= update.last_update_id,
    ensures
        ({
            let book = gate.books[gate.feeds[symbol].book];
            let feed = gate.feeds[symbol];
            let (next, step) = after_update(gate, symbol, update);
            let after = next.books[next.feeds[symbol].book];
            &&& after.update_id == update.last_update_id
            &&& after.asks == applied(book.asks, update.asks)
            &&& after.bids == applied(book.bids, update.bids)
            &&& next.feeds[symbol].book == feed.book
            &&& next.feeds[symbol].pending == feed.pending
            &&& next.feeds[symbol].history == noted(feed.history, update.bids)
        }),
{
}

/// A live book is emptied by every update that does not hold the change after the
/// book's id, and starts over; what was noted stays.
pub proof fn law_gap_empties_live_book(gate: GateView, symbol: Seq<char>, update: UpdateView)
    requires
        gate.consistent(),
        gate.feeds.contains_key(symbol),
        gate.books[gate.feeds[symbol].book].update_id > 1,
        update.first_update_id > gate.books[gate.feeds[symbol].book].update_id + 1
            || update.last_update_id < gate.books[gate.feeds[symbol].book].update_id + 1,
    ensures
        ({
            let (next, step) = after_update(gate, symbol, update);
            let after = next.books[next.feeds[symbol].book];
            &&& after.update_id == 0
            &&& after.asks == Map::<Amount, Amount>::empty()
            &&& after.bids == Map::<Amount, Amount>::empty()
            &&& next.feeds == gate.feeds
            &&& step == StepView::Done
        }),
{
}

/// The first update of a book that is not a whole book asks for a snapshot at its
/// first id, and marks the book as being set up. It is not made itself.
pub proof fn law_first_update_asks_for_snapshot(
    gate: GateView,
    symbol: Seq<char>,
    update: UpdateView,
)
    requires
        gate.consistent(),
        gate.feeds.contains_key(symbol),
        gate.books[gate.feeds[symbol].book].update_id == 0,
        !update.full,
    ensures
        ({
            let feed = gate.feeds[symbol];
            let (next, step) = after_update(gate, symbol, update);
            &&& step matches StepView::FetchSnapshot { symbol: fetched, book, first_update_id }
            &&& fetched == symbol
            &&& book == feed.book
            &&& first_update_id == update.first_update_id
            &&& next.books[feed.book].update_id == 1
            &&& next.books[feed.book].asks == gate.books[feed.book].asks
            &&& next.books[feed.book].bids == gate.books[feed.book].bids
            &&& next.feeds == gate.feeds
        }),
{
}

/// The first update of a book that is a whole book sets it up at once, without a
/// note of its bids.
pub proof fn law_first_full_update_sets_book_up(
    gate: GateView,
    symbol: Seq<char>,
    update: UpdateView,
)
    requires
        gate.consistent(),
        gate.feeds.contains_key(symbol),
        gate.books[gate.feeds[symbol].book].update_id == 0,
        update.full,
    ensures
        ({
            let book = gate.books[gate.feeds[symbol].book];
            let (next, step) = after_update(gate, symbol, update);
            let after = next.books[next.feeds[symbol].book];
            &&& after.update_id == update.last_update_id
            &&& after.asks == applied(book.asks, update.asks)
            &&& after.bids == applied(book.bids, update.bids)
            &&& next.feeds == gate.feeds
            &&& step == StepView::Done
        }),
{
}

/// While a book is being set up, every update waits, behind those that came before
/// it, and changes nothing else.
pub proof fn law_updates_wait_for_snapshot(gate: GateView, symbol: Seq<char>, update: UpdateView)
    requires
        gate.consistent(),
        gate.feeds.contains_key(symbol),
        gate.books[gate.feeds[symbol].book].update_id == 1,
    ensures
        ({
            let feed = gate.feeds[symbol];
            let (next, step) = after_update(gate, symbol, update);
            let waiting = next.feeds[symbol].pending;
            &&& waiting.len() == feed.pending.len() + 1
            &&& waiting.last() == update
            &&& forall|i: int| 0 <= i < feed.pending.len() ==> waiting[i] == feed.pending[i]
            &&& next.feeds[symbol].book == feed.book
            &&& next.feeds[symbol].history == feed.history
            &&& next.books == gate.books
            &&& step == StepView::Done
        }),
{
}

/// An update touches its own symbol and that symbol's book, and nothing else.
pub proof fn law_update_touches_own_book_only(
    gate: GateView,
    symbol: Seq<char>,
    update: UpdateView,
)
    requires
        gate.consistent(),
        gate.feeds.contains_key(symbol),
    ensures
        ({
            let next = after_update(gate, symbol, update).0;
            &&& next.market == gate.market
            &&& next.books.len() == gate.books.len()
            &&& forall|i: int|
                0 <= i < gate.books.len() && i != gate.feeds[symbol].book ==> #[trigger]
                next.books[i] == gate.books[i]
            &&& forall|other: Seq<char>|
                #![trigger next.feeds.contains_key(other)]
                next.feeds.contains_key(other) == gate.feeds.contains_key(other)
            &&& forall|other: Seq<char>|
                #![trigger next.feeds[other]]
                gate.feeds.contains_key(other) && other != symbol ==> next.feeds[other]
                    == gate.feeds[other]
            &&& next.feeds[symbol].book == gate.feeds[symbol].book
            &&& !(after_update(gate, symbol, update).1 is Ignored)
            &&& !(after_update(gate, symbol, update).1 is Sleep)
        }),
{
    let next = after_update(gate, symbol, update).0;
    assert forall|other: Seq<char>| next.feeds.contains_key(other) == gate.feeds.contains_key(
        other,
    ) by {}
}

/// Among finitely many prices, if there are any, one is not before any other.
proof fn lemma_highest(prices: Set<Amount>) -> (top: Amount)
    requires
        prices.finite(),
        prices.len() > 0,
    ensures
        prices.contains(top),
        forall|other: Amount| #[trigger] prices.contains(other) ==> !top.precedes(other),
    decreases prices.len(),
{
    let some = prices.choose();
    let rest = prices.remove(some);
    if rest.len() == 0 {
        assert forall|other: Amount| #[trigger] prices.contains(other) implies !some.precedes(
            other,
        ) by {
            if other != some {
                assert(rest.contains(other));
            }
        }
        some
    } else {
        let best = lemma_highest(rest);
        let top = if best.precedes(some) {
            some
        } else {
            best
        };
        assert forall|other: Amount| #[trigger] prices.contains(other) implies !top.precedes(
            other,
        ) by {
            if other != some {
                assert(rest.contains(other));
            }
        }
        top
    }
}

/// The bid that is reported as outside is one of the book's, is at a price without a
/// note, and no higher bid is; none is reported exactly when every bid is noted.
pub proof fn law_reported_bid_is_highest_outside(
    history: Set<Amount>,
    bids: Map<Amount, Amount>,
)
    requires
        bids.dom().finite(),
    ensures
        match first_outside(history, bids) {
            Some(price) => {
                &&& bids.contains_key(price)
                &&& !history.contains(price)
                &&& forall|other: Amount|
                    #![trigger bids.contains_key(other)]
                    bids.contains_key(other) && !history.contains(other) ==> !(price.units
                        < other.units || (price.units == other.units && price.parts < other.parts))
            },
            None => forall|price: Amount| #[trigger]
                bids.contains_key(price) ==> history.contains(price),
        },
{
    let unnoted = bids.dom().difference(history);
    if exists|price: Amount| outside(history, bids, price) {
        let price = choose|price: Amount| outside(history, bids, price);
        assert(unnoted.contains(price));
        assert(unnoted.finite());
        assert(unnoted.len() > 0) by {
            if unnoted.len() == 0 {
                assert(unnoted =~= Set::empty());
            }
        }
        let top = lemma_highest(unnoted);
        assert forall|other: Amount| #[trigger] outside(history, bids, other) implies !top.precedes(
            other,
        ) by {
            assert(unnoted.contains(other));
        }
        assert(highest_outside(history, bids, top));
        let found = first_outside(history, bids)->0;
        assert(highest_outside(history, bids, found));
        assert forall|other: Amount|
            #![trigger bids.contains_key(other)]
            bids.contains_key(other) && !history.contains(other) implies !found.precedes(other) by {
            assert(outside(history, bids, other));
        }
    } else {
        assert forall|price: Amount| #[trigger] bids.contains_key(price) implies history.contains(
            price,
        ) by {
            assert(!outside(history, bids, price));
        }
    }
}

/// A followed update reports a bid exactly when, after it, some bid is at a price
/// without a note.
pub proof fn law_live_update_reports_outside(gate: GateView, symbol: Seq<char>, update: UpdateView)
    requires
        gate.consistent(),
        gate.feeds.contains_key(symbol),
        gate.books[gate.feeds[symbol].book].update_id > 1,
        update.first_update_id <= gate.books[gate.feeds[symbol].book].update_id + 1
            <= update.last_update_id,
    ensures
        ({
            let (next, step) = after_update(gate, symbol, update);
            let history = next.feeds[symbol].history;
            let bids = next.books[next.feeds[symbol].book].bids;
            match step {
                StepView::Done => forall|price: Amount| #[trigger]
                    bids.contains_key(price) ==> history.contains(price),
                StepView::BidOutsideHistory(price) => first_outside(history, bids) == Some(price),
                _ => false,
            }
        }),
{
    let (next, step) = after_update(gate, symbol, update);
    let history = next.feeds[symbol].history;
    let bids = next.books[next.feeds[symbol].book].bids;
    if step is Done {
        assert forall|price: Amount| #[trigger] bids.contains_key(price) implies history.contains(
            price,
        ) by {
            assert(!outside(history, bids, price));
        }
    }
}

/// What is no update message is ignored.
pub proof fn law_other_messages_are_ignored(gate: GateView, message: JsonView)
    ensures
        !(message matches JsonView::Object(members) && members.contains_key("event"@)
            && members["event"@] == JsonView::Text("update"@)) <==> after_message(gate, message).1
            == Ok::<StepView, MessageError>(StepView::Ignored),
        after_message(gate, message).1 == Ok::<StepView, MessageError>(StepView::Ignored)
            ==> after_message(gate, message).0 == gate && !names_watched(gate, message),
{
}

/// An update message without a result is refused for that.
pub proof fn law_message_needs_result(gate: GateView, members: Map<Seq<char>, JsonView>)
    requires
        members.contains_key("event"@),
        members["event"@] == JsonView::Text("update"@),
    ensures
        ({
            let (next, outcome) = after_message(gate, JsonView::Object(members));
            &&& !members.contains_key("result"@) <==> outcome == Err::<StepView, MessageError>(
                MessageError::MissingResult,
            )
            &&& outcome is Err ==> next == gate
            &&& !names_watched(gate, JsonView::Object(members)) ==> outcome is Err
        }),
{
}

/// An update message with a result is refused where the result names no symbol, or
/// one that nobody watches.
pub proof fn law_message_needs_watched_symbol(gate: GateView, members: Map<Seq<char>, JsonView>)
    requires
        members.contains_key("event"@),
        members["event"@] == JsonView::Text("update"@),
        members.contains_key("result"@),
    ensures
        ({
            let (next, outcome) = after_message(gate, JsonView::Object(members));
            let named = members["result"@] matches JsonView::Object(fields) && fields.contains_key(
                "s"@,
            ) && fields["s"@] is Text;
            &&& !named <==> outcome == Err::<StepView, MessageError>(MessageError::MissingSymbol)
            &&& named ==> {
                let symbol = members["result"@]->Object_0["s"@]->Text_0;
                &&& !gate.feeds.contains_key(symbol) <==> outcome == Err::<StepView, MessageError>(
                    MessageError::NotSubscribed,
                )
                &&& gate.feeds.contains_key(symbol) == names_watched(
                    gate,
                    JsonView::Object(members),
                )
            }
        }),
{
}

/// An update message that names a watched symbol does what the update in its result
/// does to that symbol, and is refused where there is no update in it.
pub proof fn law_message_update_is_followed(
    gate: GateView,
    members: Map<Seq<char>, JsonView>,
    fields: Map<Seq<char>, JsonView>,
    symbol: Seq<char>,
)
    requires
        members.contains_key("event"@),
        members["event"@] == JsonView::Text("update"@),
        members.contains_key("result"@),
        members["result"@] == JsonView::Object(fields),
        fields.contains_key("s"@),
        fields["s"@] == JsonView::Text(symbol),
        gate.feeds.contains_key(symbol),
    ensures
        ({
            let (next, outcome) = after_message(gate, JsonView::Object(members));
            match update_of(JsonView::Object(fields), gate.market) {
                Some(update) => {
                    &&& next == after_update(gate, symbol, update).0
                    &&& outcome == Ok::<StepView, MessageError>(
                        after_update(gate, symbol, update).1,
                    )
                },
                None => {
                    &&& next == gate
                    &&& outcome == Err::<StepView, MessageError>(MessageError::MalformedUpdate)
                },
            }
        }),
{
}

proof fn lemma_notes_compose(
    prices: Set<Amount>,
    first: Seq<(Amount, Amount)>,
    second: Seq<(Amount, Amount)>,
)
    ensures
        noted(noted(prices, first), second) == noted(prices, first + second),
    decreases second.len(),
{
    if second.len() == 0 {
        assert(first + second =~= first);
    } else {
        assert((first + second).drop_last() =~= first + second.drop_last());
        lemma_notes_compose(prices, first, second.drop_last());
    }
}

/// All changes of a list of updates are those of its parts, one part after the
/// other, and those of a single update are its own.
pub proof fn law_all_changes_in_order(
    first: Seq<UpdateView>,
    second: Seq<UpdateView>,
    one: UpdateView,
)
    ensures
        all_asks(first + second) == all_asks(first) + all_asks(second),
        all_bids(first + second) == all_bids(first) + all_bids(second),
        all_asks(seq![one]) == one.asks,
        all_bids(seq![one]) == one.bids,
    decreases first.len(),
{
    let nothing = seq![one].drop_first();
    assert(nothing.len() == 0);
    assert(all_asks(nothing).len() == 0 && all_bids(nothing).len() == 0);
    assert(all_asks(seq![one]) =~= one.asks);
    assert(all_bids(seq![one]) =~= one.bids);
    if first.len() == 0 {
        assert(first + second =~= second);
        assert(all_asks(first) + all_asks(second) =~= all_asks(second));
        assert(all_bids(first) + all_bids(second) =~= all_bids(second));
    } else {
        assert((first + second).drop_first() =~= first.drop_first() + second);
        law_all_changes_in_order(first.drop_first(), second, one);
        assert(all_asks(first + second) =~= all_asks(first) + all_asks(second));
        assert(all_bids(first + second) =~= all_bids(first) + all_bids(second));
    }
}

/// A replay makes the changes of the updates up to the first that does not continue.
proof fn lemma_replay_run(
    book: BookView,
    history: Set<Amount>,
    updates: Seq<UpdateView>,
    stop: int,
)
    requires
        0 <= stop <= updates.len(),
        stop > 0 ==> continues(book.update_id, updates[0]),
        forall|i: int|
            0 < i < stop ==> continues(updates[i - 1].last_update_id, #[trigger] updates[i]),
        stop < updates.len() ==> !continues(
            if stop == 0 {
                book.update_id
            } else {
                updates[stop - 1].last_update_id
            },
            updates[stop],
        ),
    ensures
        replayed(book, history, updates) == (
            BookView {
                asks: applied(book.asks, all_asks(updates.take(stop))),
                bids: applied(book.bids, all_bids(updates.take(stop))),
                update_id: if stop < updates.len() {
                    0
                } else if stop == 0 {
                    book.update_id
                } else {
                    updates[stop - 1].last_update_id
                },
            },
            noted(history, all_bids(updates.take(stop))),
        ),
    decreases updates.len(),
{
    if stop == 0 {
        assert(updates.take(0) =~= Seq::empty());
    } else {
        let rest = updates.drop_first();
        let run = updates.take(stop);
        assert(run.drop_first() =~= rest.take(stop - 1));
        assert forall|i: int| 0 < i < stop - 1 implies continues(
            rest[i - 1].last_update_id,
            #[trigger] rest[i],
        ) by {
            assert(rest[i] == updates[i + 1] && rest[i - 1] == updates[i]);
        }
        if stop > 1 {
            assert(rest[0] == updates[1]);
        }
        if stop < updates.len() {
            assert(rest[stop - 1] == updates[stop]);
        }
        lemma_replay_run(
            book.updated(updates[0]),
            noted(history, updates[0].bids),
            rest,
            stop - 1,
        );
        law_changes_compose(book.asks, updates[0].asks, all_asks(run.drop_first()));
        law_changes_compose(book.bids, updates[0].bids, all_bids(run.drop_first()));
        lemma_notes_compose(history, updates[0].bids, all_bids(run.drop_first()));
    }
}

/// An attempt sets its book up with the snapshot and, from the first waiting update
/// that continues the snapshot on, with every waiting update that continues the one
/// before it, up to the first gap. Without a gap the book is at the id of the last
/// waiting update; with one it is marked as not set up. No update waits any longer.
pub proof fn law_attempt_replays_waiting_updates(
    gate: GateView,
    task: AlignView,
    start: int,
    stop: int,
)
    requires
        gate.consistent(),
        gate.feeds.contains_key(task.symbol),
        0 <= task.book < gate.books.len(),
        task.retries < 5,
        0 <= start < stop <= gate.feeds[task.symbol].pending.len(),
        ({
            let waiting = gate.feeds[task.symbol].pending;
            let id = task.snapshot.update_id;
            &&& forall|i: int|
                0 <= i < start ==> (#[trigger] waiting[i]).first_update_id > id + 1
                    || waiting[i].last_update_id < id + 1
            &&& waiting[start].first_update_id <= id + 1 <= waiting[start].last_update_id
            &&& forall|i: int|
                start < i < stop ==> (#[trigger] waiting[i]).first_update_id <= waiting[i
                    - 1].last_update_id + 1 <= waiting[i].last_update_id
            &&& stop < waiting.len() ==> waiting[stop].first_update_id > waiting[stop
                - 1].last_update_id + 1 || waiting[stop].last_update_id < waiting[stop
                - 1].last_update_id + 1
        }),
    ensures
        ({
            let feed = gate.feeds[task.symbol];
            let run = feed.pending.subrange(start, stop);
            let (next, step) = after_attempt(gate, task);
            let after = next.books[task.book];
            &&& step == StepView::Done
            &&& after.asks == applied(task.snapshot.asks, all_asks(run))
            &&& after.bids == applied(task.snapshot.bids, all_bids(run))
            &&& stop == feed.pending.len() ==> after.update_id
                == feed.pending.last().last_update_id
            &&& stop < feed.pending.len() ==> after.update_id == 0
            &&& next.feeds[task.symbol].pending.len() == 0
            &&& next.feeds[task.symbol].history == noted(
                noted_levels(feed.history, task.snapshot.bids),
                all_bids(run),
            )
        }),
{
    let feed = gate.feeds[task.symbol];
    let waiting = feed.pending;
    let rest = waiting.skip(start);
    lemma_first_continuing(waiting, task.snapshot.update_id, start as nat);
    assert(rest.take(stop - start) =~= waiting.subrange(start, stop));
    assert(rest[0] == waiting[start]);
    assert forall|i: int| 0 < i < stop - start implies continues(
        rest[i - 1].last_update_id,
        #[trigger] rest[i],
    ) by {
        assert(rest[i] == waiting[start + i] && rest[i - 1] == waiting[start + i - 1]);
    }
    assert(rest[stop - start - 1] == waiting[stop - 1]);
    if stop < waiting.len() {
        assert(rest[stop - start] == waiting[stop]);
    }
    lemma_replay_run(
        task.snapshot,
        noted_levels(feed.history, task.snapshot.bids),
        rest,
        stop - start,
    );
}

/// Where the waiting updates, from the first that continues the snapshot on, follow
/// one another without a gap, the book is brought up to the last of them.
pub proof fn law_attempt_catches_up(gate: GateView, task: AlignView, start: int)
    requires
        gate.consistent(),
        gate.feeds.contains_key(task.symbol),
        0 <= task.book < gate.books.len(),
        task.retries < 5,
        0 <= start < gate.feeds[task.symbol].pending.len(),
        ({
            let waiting = gate.feeds[task.symbol].pending;
            let id = task.snapshot.update_id;
            &&& forall|i: int|
                0 <= i < start ==> (#[trigger] waiting[i]).first_update_id > id + 1
                    || waiting[i].last_update_id < id + 1
            &&& waiting[start].first_update_id <= id + 1 <= waiting[start].last_update_id
            &&& forall|i: int|
                start < i < waiting.len() ==> (#[trigger] waiting[i]).first_update_id <= waiting[i
                    - 1].last_update_id + 1 <= waiting[i].last_update_id
        }),
    ensures
        ({
            let waiting = gate.feeds[task.symbol].pending;
            let run = waiting.skip(start);
            let after = after_attempt(gate, task).0.books[task.book];
            &&& after.update_id == waiting.last().last_update_id
            &&& after.asks == applied(task.snapshot.asks, all_asks(run))
            &&& after.bids == applied(task.snapshot.bids, all_bids(run))
        }),
{
    let waiting = gate.feeds[task.symbol].pending;
    law_attempt_replays_waiting_updates(gate, task, start, waiting.len() as int);
    assert(waiting.subrange(start, waiting.len() as int) =~= waiting.skip(start));
}

/// An attempt that finds no waiting update to continue the snapshot drops those
/// that wait, leaves the book and the notes, and is made again after a pause.
pub proof fn law_attempt_without_start_pauses(gate: GateView, task: AlignView)
    requires
        gate.consistent(),
        gate.feeds.contains_key(task.symbol),
        0 <= task.book < gate.books.len(),
        task.retries < 5,
        forall|i: int|
            0 <= i < gate.feeds[task.symbol].pending.len() ==> (
            #[trigger] gate.feeds[task.symbol].pending[i]).first_update_id
                > task.snapshot.update_id + 1
                || gate.feeds[task.symbol].pending[i].last_update_id < task.snapshot.update_id + 1,
    ensures
        ({
            let feed = gate.feeds[task.symbol];
            let (next, step) = after_attempt(gate, task);
            &&& step matches StepView::Sleep(again)
            &&& again.symbol == task.symbol
            &&& again.book == task.book
            &&& again.snapshot == task.snapshot
            &&& again.retries == task.retries + 1
            &&& next.books == gate.books
            &&& next.feeds[task.symbol].pending.len() == 0
            &&& next.feeds[task.symbol].history == feed.history
            &&& next.feeds[task.symbol].book == feed.book
        }),
{
    let waiting = gate.feeds[task.symbol].pending;
    assert forall|i: int| 0 <= i < waiting.len() implies !continues(
        task.snapshot.update_id,
        #[trigger] waiting[i],
    ) by {}
    lemma_first_continuing(waiting, task.snapshot.update_id, waiting.len());
}

/// After five attempts in vain, and after a fetch in vain, the book is marked as not
/// set up; its levels and all that waits stay.
pub proof fn law_giving_up_marks_book(gate: GateView, task: AlignView, other: Seq<char>)
    requires
        0 <= task.book < gate.books.len(),
        task.retries >= 5,
    ensures
        ({
            let (next, step) = after_attempt(gate, task);
            &&& step == StepView::Done
            &&& next.market == gate.market
            &&& next.feeds == gate.feeds
            &&& next.books.len() == gate.books.len()
            &&& next.books[task.book].update_id == 0
            &&& next.books[task.book].asks == gate.books[task.book].asks
            &&& next.books[task.book].bids == gate.books[task.book].bids
            &&& forall|i: int|
                0 <= i < gate.books.len() && i != task.book ==> #[trigger] next.books[i]
                    == gate.books[i]
            &&& after_fetch(gate, other, task.book, None) == (next, step)
        }),
{
}

/// A snapshot that came is held against the waiting updates at once, as the first of
/// the attempts.
pub proof fn law_fetched_snapshot_is_tried(
    gate: GateView,
    symbol: Seq<char>,
    book: int,
    snapshot: BookView,
)
    ensures
        after_fetch(gate, symbol, book, Some(snapshot)) == after_attempt(
            gate,
            AlignView { symbol, book, snapshot, retries: 0 },
        ),
{
}

/// An attempt touches its own book and its own symbol, and nothing else.
pub proof fn law_attempt_touches_own_book_only(gate: GateView, task: AlignView)
    ensures
        ({
            let (next, step) = after_attempt(gate, task);
            let known = 0 <= task.book < gate.books.len() && (task.retries >= 5
                || gate.feeds.contains_key(task.symbol));
            &&& step is Ignored == !known
            &&& !known ==> next == gate
            &&& next.market == gate.market
            &&& next.books.len() == gate.books.len()
            &&& forall|i: int|
                0 <= i < gate.books.len() && i != task.book ==> #[trigger] next.books[i]
                    == gate.books[i]
            &&& forall|other: Seq<char>|
                #![trigger next.feeds.contains_key(other)]
                next.feeds.contains_key(other) == gate.feeds.contains_key(other)
            &&& forall|other: Seq<char>|
                #![trigger next.feeds[other]]
                gate.feeds.contains_key(other) && other != task.symbol ==> next.feeds[other]
                    == gate.feeds[other]
            &&& gate.feeds.contains_key(task.symbol) ==> next.feeds[task.symbol].book
                == gate.feeds[task.symbol].book
        }),
{
}

/// The end of a fetch for a book that is not there changes nothing.
pub proof fn law_fetch_for_no_book_is_ignored(
    gate: GateView,
    symbol: Seq<char>,
    book: int,
    snapshot: Option<BookView>,
)
    requires
        !(0 <= book < gate.books.len()),
    ensures
        after_fetch(gate, symbol, book, snapshot) == (gate, StepView::Ignored),
{
}

/// A symbol that is watched, for the first time or again, gets a book of its own
/// that is empty and not set up, without notes and without waiting updates; nothing
/// else changes.
pub proof fn law_watching_starts_fresh(gate: GateView, symbol: Seq<char>)
    ensures
        ({
            let next = gate.watching(symbol);
            let feed = next.feeds[symbol];
            &&& next.market == gate.market
            &&& next.books.len() == gate.books.len() + 1
            &&& forall|i: int|
                0 <= i < gate.books.len() ==> #[trigger] next.books[i] == gate.books[i]
            &&& next.feeds.contains_key(symbol)
            &&& feed.book == gate.books.len()
            &&& feed.history == Set::<Amount>::empty()
            &&& feed.pending.len() == 0
            &&& next.books[feed.book].update_id == 0
            &&& next.books[feed.book].asks == Map::<Amount, Amount>::empty()
            &&& next.books[feed.book].bids == Map::<Amount, Amount>::empty()
            &&& forall|other: Seq<char>|
                #![trigger next.feeds.contains_key(other)]
                other != symbol ==> next.feeds.contains_key(other) == gate.feeds.contains_key(other)
            &&& forall|other: Seq<char>|
                #![trigger next.feeds[other]]
                gate.feeds.contains_key(other) && other != symbol ==> next.feeds[other]
                    == gate.feeds[other]
        }),
{
}

/// The message that asks for a symbol's updates names the time, the market's channel,
/// the event, and as its payload the symbol and the pace; it says nothing else.
pub proof fn law_subscription_names_symbol(market: MarketType, name: Seq<char>, time: u64)
    ensures
        subscription(market, name, time) matches JsonView::Object(members) && {
            &&& forall|key: Seq<char>|
                #![trigger members.contains_key(key)]
                members.contains_key(key) <==> key == "time"@ || key == "channel"@ || key
                    == "event"@ || key == "payload"@
            &&& members["time"@].whole() == Some(time)
            &&& members["time"@] is Number
            &&& market is Spot ==> members["channel"@] == JsonView::Text(
                "spot.order_book_update"@,
            )
            &&& market is Future ==> members["channel"@] == JsonView::Text(
                "futures.order_book_update"@,
            )
            &&& members["event"@] == JsonView::Text("subscribe"@)
            &&& members["payload"@] matches JsonView::Array(items)
            &&& items.len() == 2
            &&& items[0] == JsonView::Text(name)
            &&& items[1] == JsonView::Text("100ms"@)
        },
{
    reveal_strlit("time");
    reveal_strlit("channel");
    reveal_strlit("event");
    reveal_strlit("payload");
    assert("time"@[0] == 't' && "event"@[0] == 'e' && "payload"@[0] == 'p');
    assert("channel"@[0] == 'c');
}

/// A step and its task are seen as what they hold.
pub proof fn law_steps_are_their_fields(step: Step, task: AlignTask)
    ensures
        match step {
            Step::Ignored => step@ == StepView::Ignored,
            Step::Done => step@ == StepView::Done,
            Step::FetchSnapshot(fetch) => {
                &&& step@ matches StepView::FetchSnapshot { symbol, book, first_update_id }
                &&& symbol == fetch.symbol@
                &&& book == fetch.book
                &&& first_update_id == fetch.first_update_id
            },
            Step::Sleep(again) => step@ == StepView::Sleep(again@),
            Step::BidOutsideHistory(price) => step@ == StepView::BidOutsideHistory(price),
        },
        task@.symbol == task.symbol@,
        task@.book == task.book,
        task@.snapshot == task.snapshot@,
        task@.retries == task.retries,
{
}

/// A snapshot is tried five times, a tenth of a second apart.
pub proof fn law_attempts_are_five()
    ensures
        MAX_RETRIES == 5,
        RETRY_PAUSE_MILLIS == 100,
{
}

} // verus!
