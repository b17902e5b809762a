//! A book that is kept up shows what the exchange shows.

use vstd::prelude::*;

use crate::amount::Amount;
use crate::gate::{
    after_attempt, after_fetch, after_update, first_continuing, replayed, AlignView, GateView,
};
use crate::history::{noted, noted_levels};
use crate::laws::{law_changes_are_idempotent, law_changes_compose, lemma_continuing};
use crate::order::{applied, continues, BookView, UpdateView};

verus! {

/// What happens on the exchange: under each id, the changes of asks and of bids.
pub struct ExchangeLog {
    pub asks: spec_fn(int) -> Seq<(Amount, Amount)>,
    pub bids: spec_fn(int) -> Seq<(Amount, Amount)>,
}

/// The changes under the ids after `after`, up to and with `until`.
pub open spec fn made(
    changes: spec_fn(int) -> Seq<(Amount, Amount)>,
    after: int,
    until: int,
) -> Seq<(Amount, Amount)>
    decreases until - after,
{
    if until <= after {
        Seq::empty()
    } else {
        made(changes, after, until - 1) + changes(until)
    }
}

/// One side of the exchange's book once the changes up to an id were made.
pub open spec fn side_at(changes: spec_fn(int) -> Seq<(Amount, Amount)>, id: int) -> Map<
    Amount,
    Amount,
> {
    applied(Map::empty(), made(changes, -1, id))
}

/// A book shows the exchange's book as it was at the book's id.
pub open spec fn shows(book: BookView, log: ExchangeLog) -> bool {
    &&& book.asks == side_at(log.asks, book.update_id as int)
    &&& book.bids == side_at(log.bids, book.update_id as int)
}

/// An update tells of all changes from its first id to its last.
pub open spec fn tells(update: UpdateView, log: ExchangeLog) -> bool {
    &&& update.asks == made(log.asks, update.first_update_id - 1, update.last_update_id as int)
    &&& update.bids == made(log.bids, update.first_update_id - 1, update.last_update_id as int)
}

/// What is kept for a symbol is true of the exchange: its book, once it is set up,
/// and the updates that wait.
pub open spec fn in_step(gate: GateView, symbol: Seq<char>, log: ExchangeLog) -> bool {
    let feed = gate.feeds[symbol];
    let book = gate.books[feed.book];
    &&& book.update_id <= 1 || shows(book, log)
    &&& forall|i: int| 0 <= i < feed.pending.len() ==> tells(#[trigger] feed.pending[i], log)
}

proof fn lemma_made_joins(
    changes: spec_fn(int) -> Seq<(Amount, Amount)>,
    a: int,
    b: int,
    c: int,
)
    requires
        a <= b <= c,
    ensures
        made(changes, a, c) == made(changes, a, b) + made(changes, b, c),
    decreases c - b,
{
    if b == c {
        assert(made(changes, a, b) + made(changes, b, c) =~= made(changes, a, b));
    } else {
        lemma_made_joins(changes, a, b, c - 1);
        assert(made(changes, a, c) =~= made(changes, a, b) + made(changes, b, c));
    }
}

/// Changes that are told again do no harm: from the exchange's book at an id, all
/// changes since some earlier id lead to the exchange's book at the last of them.
pub proof fn law_overlap_does_no_harm(
    changes: spec_fn(int) -> Seq<(Amount, Amount)>,
    first: int,
    id: int,
    last: int,
)
    requires
        0 <= first <= id + 1 <= last,
    ensures
        applied(side_at(changes, id), made(changes, first - 1, last)) == side_at(changes, last),
{
    let here = side_at(changes, id);
    let again = made(changes, first - 1, id);
    let news = made(changes, id, last);
    lemma_made_joins(changes, first - 1, id, last);
    lemma_made_joins(changes, -1, first - 1, id);
    lemma_made_joins(changes, -1, id, last);
    law_changes_compose(Map::empty(), made(changes, -1, first - 1), again);
    law_changes_are_idempotent(side_at(changes, first - 1), again);
    law_changes_compose(here, again, news);
    law_changes_compose(Map::empty(), made(changes, -1, id), news);
}

/// A book that shows the exchange's book still does after an update that
/// continues it.
pub proof fn law_update_keeps_book_true(book: BookView, update: UpdateView, log: ExchangeLog)
    requires
        shows(book, log),
        tells(update, log),
        continues(book.update_id, update),
    ensures
        shows(book.updated(update), log),
{
    let first = update.first_update_id as int;
    let last = update.last_update_id as int;
    law_overlap_does_no_harm(log.asks, first, book.update_id as int, last);
    law_overlap_does_no_harm(log.bids, first, book.update_id as int, last);
}

/// A book that shows the exchange's book still does after a replay, or is marked
/// as not set up.
pub proof fn law_replay_keeps_book_true(
    book: BookView,
    history: Set<Amount>,
    updates: Seq<UpdateView>,
    log: ExchangeLog,
)
    requires
        shows(book, log),
        forall|i: int| 0 <= i < updates.len() ==> tells(#[trigger] updates[i], log),
    ensures
        ({
            let next = replayed(book, history, updates).0;
            next.update_id == 0 || shows(next, log)
        }),
    decreases updates.len(),
{
    if updates.len() > 0 && continues(book.update_id, updates[0]) {
        let rest = updates.drop_first();
        law_update_keeps_book_true(book, updates[0], log);
        assert forall|i: int| 0 <= i < rest.len() implies tells(#[trigger] rest[i], log) by {
            assert(rest[i] == updates[i + 1]);
        }
        law_replay_keeps_book_true(
            book.updated(updates[0]),
            noted(history, updates[0].bids),
            rest,
            log,
        );
    }
}

/// A symbol that is in step with the exchange stays in step with each update. The
/// update that sets a book up by itself has to show the exchange's book.
pub proof fn law_update_keeps_step(
    gate: GateView,
    symbol: Seq<char>,
    update: UpdateView,
    log: ExchangeLog,
)
    requires
        gate.consistent(),
        gate.feeds.contains_key(symbol),
        in_step(gate, symbol, log),
        tells(update, log),
        ({
            let book = gate.books[gate.feeds[symbol].book];
            update.full && book.update_id == 0 && update.last_update_id > 1 ==> shows(
                book.updated(update),
                log,
            )
        }),
    ensures
        in_step(after_update(gate, symbol, update).0, symbol, log),
{
    let book = gate.books[gate.feeds[symbol].book];
    if book.update_id > 1 && continues(book.update_id, update) {
        law_update_keeps_book_true(book, update, log);
    }
}

/// A symbol that is in step with the exchange stays in step when its book is set
/// up with a snapshot of the exchange's book.
pub proof fn law_attempt_keeps_step(gate: GateView, task: AlignView, log: ExchangeLog)
    requires
        gate.consistent(),
        gate.feeds.contains_key(task.symbol),
        in_step(gate, task.symbol, log),
        shows(task.snapshot, log),
    ensures
        in_step(after_attempt(gate, task).0, task.symbol, log),
{
    let pending = gate.feeds[task.symbol].pending;
    let start = first_continuing(pending, task.snapshot.update_id) as int;
    lemma_continuing(pending, task.snapshot.update_id);
    if start < pending.len() {
        let rest = pending.skip(start);
        assert forall|i: int| 0 <= i < rest.len() implies tells(#[trigger] rest[i], log) by {
            assert(rest[i] == pending[start + i]);
        }
        law_replay_keeps_book_true(
            task.snapshot,
            noted_levels(gate.feeds[task.symbol].history, task.snapshot.bids),
            rest,
            log,
        );
    }
}

/// A symbol that is in step with the exchange stays in step when a fetch ends: with
/// a snapshot of the exchange's book, or without any.
pub proof fn law_fetch_keeps_step(
    gate: GateView,
    symbol: Seq<char>,
    book: int,
    snapshot: Option<BookView>,
    log: ExchangeLog,
)
    requires
        gate.consistent(),
        gate.feeds.contains_key(symbol),
        in_step(gate, symbol, log),
        snapshot matches Some(found) ==> shows(found, log),
    ensures
        in_step(after_fetch(gate, symbol, book, snapshot).0, symbol, log),
{
    if let Some(snapshot) = snapshot {
        law_attempt_keeps_step(gate, AlignView { symbol, book, snapshot, retries: 0 }, log);
    }
}

/// A symbol is in step with the exchange from when it is watched.
pub proof fn law_watched_symbol_is_in_step(gate: GateView, symbol: Seq<char>, log: ExchangeLog)
    ensures
        in_step(gate.watching(symbol), symbol, log),
{
}

} // verus!
