//! The books of one connection, and how its messages move them.

use vstd::prelude::*;

use vstd::hash_map::StringHashMap;

use crate::amount::Amount;
use crate::history::{first_outside, noted, noted_levels, HistoryBids};
use crate::json::{
    array_value, distinct_names, json_tree, object_value, parse_json, parsed_json, render_value, rendered_json,
    text_value, value_members, whole_numbers, whole_value, Json, JsonView,
};
use crate::market::MarketType;
use crate::order::{continues, BookView, OrderBook, OrderBookUpdate, UpdateView};
use crate::symbol::{normalize_symbol, normalized};
use crate::text::same_text;
use crate::update::{read_update, readable_update, update_of};

verus! {

/// How often a snapshot is held against the updates that have come.
pub const MAX_RETRIES: u32 = 5;

/// How long to wait between two such attempts, in milliseconds.
pub const RETRY_PAUSE_MILLIS: u64 = 100;

/// A book waits for the snapshot that sets it up.
pub struct SnapshotTask {
    pub symbol: String,
    pub book: usize,
    pub first_update_id: u64,
}

/// A snapshot waits for the update that continues it.
pub struct AlignTask {
    pub symbol: String,
    pub book: usize,
    pub snapshot: OrderBook,
    pub retries: u32,
}

/// What is to happen after a message, a snapshot or a pause.
pub enum Step {
    /// The message was none of the books' business.
    Ignored,
    /// The books are up to date.
    Done,
    /// Fetch a snapshot whose id is at least the task's, and hand it in.
    FetchSnapshot(SnapshotTask),
    /// Pause, and take the task up again.
    Sleep(AlignTask),
    /// The book has a bid at a price that no update has named.
    BidOutsideHistory(Amount),
}

/// What a snapshot and its task say.
pub struct AlignView {
    pub symbol: Seq<char>,
    pub book: int,
    pub snapshot: BookView,
    pub retries: u32,
}

/// What a step says.
pub enum StepView {
    Ignored,
    Done,
    FetchSnapshot { symbol: Seq<char>, book: int, first_update_id: u64 },
    Sleep(AlignView),
    BidOutsideHistory(Amount),
}

impl View for AlignTask {
    type V = AlignView;

    open spec fn view(&self) -> AlignView {
        AlignView {
            symbol: self.symbol@,
            book: self.book as int,
            snapshot: self.snapshot@,
            retries: self.retries,
        }
    }
}

impl View for Step {
    type V = StepView;

    open spec fn view(&self) -> StepView {
        match self {
            Step::Ignored => StepView::Ignored,
            Step::Done => StepView::Done,
            Step::FetchSnapshot(task) => StepView::FetchSnapshot {
                symbol: task.symbol@,
                book: task.book as int,
                first_update_id: task.first_update_id,
            },
            Step::Sleep(task) => StepView::Sleep(task@),
            Step::BidOutsideHistory(price) => StepView::BidOutsideHistory(*price),
        }
    }
}

/// Why an update message cannot be followed.
#[derive(Clone, Copy, Debug, PartialEq, Eq, Structural)]
pub enum MessageError {
    /// It has no result.
    MissingResult,
    /// Its result names no symbol.
    MissingSymbol,
    /// Nobody watches its symbol.
    NotSubscribed,
    /// Its result is no update.
    MalformedUpdate,
}

/// What is kept for a symbol: which book is its, which bid prices it has named,
/// and the updates that came while the book was being set up.
pub struct FeedView {
    pub book: int,
    pub history: Set<Amount>,
    pub pending: Seq<UpdateView>,
}

/// What a gate holds. A book that a symbol no longer has stays where it is.
pub struct GateView {
    pub market: MarketType,
    pub books: Seq<BookView>,
    pub feeds: Map<Seq<char>, FeedView>,
}

impl GateView {
    /// Every symbol has a book, and no two have the same.
    pub open spec fn consistent(self) -> bool {
        &&& forall|symbol: Seq<char>| #[trigger]
            self.feeds.contains_key(symbol) ==> 0 <= self.feeds[symbol].book < self.books.len()
        &&& forall|a: Seq<char>, b: Seq<char>|
            #![trigger self.feeds[a], self.feeds[b]]
            self.feeds.contains_key(a) && self.feeds.contains_key(b) && self.feeds[a].book
                == self.feeds[b].book ==> a == b
    }

    /// With another book in the place of one.
    pub open spec fn with_book(self, book: int, content: BookView) -> GateView {
        GateView { books: self.books.update(book, content), ..self }
    }

    /// With a symbol's feed as given.
    pub open spec fn with_feed(self, symbol: Seq<char>, feed: FeedView) -> GateView {
        GateView { feeds: self.feeds.insert(symbol, feed), ..self }
    }

    /// With a symbol that has an empty book of its own and nothing behind it.
    pub open spec fn watching(self, symbol: Seq<char>) -> GateView {
        GateView {
            market: self.market,
            books: self.books.push(BookView::empty()),
            feeds: self.feeds.insert(
                symbol,
                FeedView {
                    book: self.books.len() as int,
                    history: Set::empty(),
                    pending: Seq::empty(),
                },
            ),
        }
    }
}

/// The message that asks for the updates of a symbol, ten times a second.
pub open spec fn subscription(market: MarketType, name: Seq<char>, time: u64) -> JsonView {
    let channel = match market {
        MarketType::Spot => "spot.order_book_update"@,
        MarketType::Future => "futures.order_book_update"@,
    };
    JsonView::Object(
        Map::empty().insert(
            "time"@,
            JsonView::Number { whole: Some(time), decimal: Some((time as i128, 0u32)) },
        ).insert("channel"@, JsonView::Text(channel)).insert(
            "event"@,
            JsonView::Text("subscribe"@),
        ).insert(
            "payload"@,
            JsonView::Array(seq![JsonView::Text(name), JsonView::Text("100ms"@)]),
        ),
    )
}

/// The place of the first update that continues a book at `update_id`; the
/// number of updates where none does.
pub open spec fn first_continuing(updates: Seq<UpdateView>, update_id: u64) -> nat
    decreases updates.len(),
{
    if updates.len() == 0 || continues(update_id, updates[0]) {
        0
    } else {
        1 + first_continuing(updates.drop_first(), update_id)
    }
}

/// A book and its bid history after a list of updates. At the first that does
/// not continue the book, the book is marked as not set up, and the rest is left.
pub open spec fn replayed(book: BookView, history: Set<Amount>, updates: Seq<UpdateView>) -> (
    BookView,
    Set<Amount>,
)
    decreases updates.len(),
{
    if updates.len() == 0 {
        (book, history)
    } else if continues(book.update_id, updates[0]) {
        replayed(
            book.updated(updates[0]),
            noted(history, updates[0].bids),
            updates.drop_first(),
        )
    } else {
        (book.marked(0), history)
    }
}

/// What an update of a watched symbol does, and what is to happen then.
pub open spec fn after_update(gate: GateView, symbol: Seq<char>, update: UpdateView) -> (
    GateView,
    StepView,
) {
    let feed = gate.feeds[symbol];
    let book = gate.books[feed.book];
    if book.update_id == 0 {
        if update.full {
            (gate.with_book(feed.book, book.updated(update)), StepView::Done)
        } else {
            (
                gate.with_book(feed.book, book.marked(1)),
                StepView::FetchSnapshot {
                    symbol,
                    book: feed.book,
                    first_update_id: update.first_update_id,
                },
            )
        }
    } else if book.update_id == 1 {
        (
            gate.with_feed(symbol, FeedView { pending: feed.pending.push(update), ..feed }),
            StepView::Done,
        )
    } else if continues(book.update_id, update) {
        let history = noted(feed.history, update.bids);
        let next = book.updated(update);
        (
            gate.with_book(feed.book, next).with_feed(symbol, FeedView { history, ..feed }),
            match first_outside(history, next.bids) {
                Some(price) => StepView::BidOutsideHistory(price),
                None => StepView::Done,
            },
        )
    } else {
        (gate.with_book(feed.book, BookView::empty()), StepView::Done)
    }
}

/// A message is an update that names a watched symbol.
pub open spec fn names_watched(gate: GateView, message: JsonView) -> bool {
    &&& message.field("event"@).text() == Some("update"@)
    &&& match message.field("result"@).field("s"@).text() {
        Some(symbol) => gate.feeds.contains_key(symbol),
        None => false,
    }
}

/// What a message does.
pub open spec fn after_message(gate: GateView, message: JsonView) -> (
    GateView,
    Result<StepView, MessageError>,
) {
    if message.field("event"@).text() != Some("update"@) {
        (gate, Ok(StepView::Ignored))
    } else {
        match message.member("result"@) {
            None => (gate, Err(MessageError::MissingResult)),
            Some(result) => match result.field("s"@).text() {
                None => (gate, Err(MessageError::MissingSymbol)),
                Some(symbol) => if !gate.feeds.contains_key(symbol) {
                    (gate, Err(MessageError::NotSubscribed))
                } else {
                    match update_of(result, gate.market) {
                        None => (gate, Err(MessageError::MalformedUpdate)),
                        Some(update) => {
                            let (next, step) = after_update(gate, symbol, update);
                            (next, Ok(step))
                        },
                    }
                },
            },
        }
    }
}

/// What one attempt does to set a book up with a snapshot. It takes the symbol's
/// waiting updates. From the first that continues the snapshot on, they are
/// replayed on it; where none does, they are dropped. After the last attempt the
/// book is marked as not set up.
pub open spec fn after_attempt(gate: GateView, task: AlignView) -> (GateView, StepView) {
    if !(0 <= task.book < gate.books.len()) {
        (gate, StepView::Ignored)
    } else if task.retries >= MAX_RETRIES {
        (gate.with_book(task.book, gate.books[task.book].marked(0)), StepView::Done)
    } else if !gate.feeds.contains_key(task.symbol) {
        (gate, StepView::Ignored)
    } else {
        let feed = gate.feeds[task.symbol];
        let taken = FeedView { pending: Seq::empty(), ..feed };
        let start = first_continuing(feed.pending, task.snapshot.update_id);
        if start == feed.pending.len() {
            (
                gate.with_feed(task.symbol, taken),
                StepView::Sleep(AlignView { retries: (task.retries + 1) as u32, ..task }),
            )
        } else {
            let (book, history) = replayed(
                task.snapshot,
                noted_levels(feed.history, task.snapshot.bids),
                feed.pending.skip(start as int),
            );
            (
                gate.with_book(task.book, book).with_feed(
                    task.symbol,
                    FeedView { history, ..taken },
                ),
                StepView::Done,
            )
        }
    }
}

/// What the end of a fetch does: without a snapshot the book is marked as not set
/// up, with one the first attempt is made.
pub open spec fn after_fetch(
    gate: GateView,
    symbol: Seq<char>,
    book: int,
    snapshot: Option<BookView>,
) -> (GateView, StepView) {
    match snapshot {
        Some(snapshot) => after_attempt(gate, AlignView { symbol, book, snapshot, retries: 0 }),
        None => if 0 <= book < gate.books.len() {
            (gate.with_book(book, gate.books[book].marked(0)), StepView::Done)
        } else {
            (gate, StepView::Ignored)
        },
    }
}

struct Feed {
    book: usize,
    history: HistoryBids,
    pending: Vec<OrderBookUpdate>,
}

impl Feed {
    spec fn sense(self) -> FeedView {
        FeedView {
            book: self.book as int,
            history: self.history@,
            pending: self.pending@.map_values(|update: OrderBookUpdate| update@),
        }
    }
}

/// What a list of updates says.
spec fn update_views(updates: Seq<OrderBookUpdate>) -> Seq<UpdateView> {
    updates.map_values(|update: OrderBookUpdate| update@)
}

/// The first continuing update is the one that continues, or the end, with none
/// that continues before it.
pub(crate) proof fn lemma_first_continuing(updates: Seq<UpdateView>, update_id: u64, place: nat)
    requires
        place <= updates.len(),
        forall|i: int| 0 <= i < place ==> !continues(update_id, #[trigger] updates[i]),
        place < updates.len() ==> continues(update_id, updates[place as int]),
    ensures
        first_continuing(updates, update_id) == place,
    decreases updates.len(),
{
    if place > 0 {
        let rest = updates.drop_first();
        assert(!continues(update_id, updates[0]));
        assert forall|i: int| 0 <= i < place - 1 implies !continues(
            update_id,
            #[trigger] rest[i],
        ) by {
            assert(rest[i] == updates[i + 1]);
        }
        lemma_first_continuing(rest, update_id, (place - 1) as nat);
    }
}

/// Finds the first update that continues a book at `update_id`.
fn find_continuing(updates: &Vec<OrderBookUpdate>, update_id: u64) -> (place: usize)
    ensures
        place <= updates@.len(),
        place == first_continuing(update_views(updates@), update_id),
{
    let mut place: usize = 0;
    while place < updates.len() && !updates[place].continues_from(update_id)
        invariant
            place <= updates@.len(),
            forall|i: int| 0 <= i < place ==> !continues(update_id, (#[trigger] updates@[i])@),
        decreases updates@.len() - place,
    {
        place = place + 1;
    }
    proof {
        lemma_first_continuing(update_views(updates@), update_id, place as nat);
    }
    place
}

/// Replays updates on a book and its bid history.
fn replay(
    book: &mut OrderBook,
    history: &mut HistoryBids,
    updates: &Vec<OrderBookUpdate>,
    from: usize,
)
    requires
        from <= updates@.len(),
    ensures
        (final(book)@, final(history)@) == replayed(
            old(book)@,
            old(history)@,
            update_views(updates@).skip(from as int),
        ),
{
    let mut i: usize = from;
    while i < updates.len()
        invariant
            from <= i <= updates@.len(),
            replayed(book@, history@, update_views(updates@).skip(i as int)) == replayed(
                old(book)@,
                old(history)@,
                update_views(updates@).skip(from as int),
            ),
        decreases updates@.len() - i,
    {
        let update: &OrderBookUpdate = &updates[i];
        proof {
            let rest = update_views(updates@).skip(i as int);
            assert(rest[0] == update@);
            assert(rest.drop_first() =~= update_views(updates@).skip(i + 1));
        }
        if !update.continues_from(book.update_id) {
            book.update_id = 0;
            return;
        }
        book.apply_update(update);
        history.note(&update.bids);
        i = i + 1;
    }
}

/// The books of one connection to a market.
pub struct Gate {
    market: MarketType,
    books: Vec<OrderBook>,
    feeds: Vec<Feed>,
    symbols: StringHashMap<usize>,
}

impl View for Gate {
    type V = GateView;

    closed spec fn view(&self) -> GateView {
        GateView {
            market: self.market,
            books: self.books@.map_values(|book: OrderBook| book@),
            feeds: Map::new(
                |symbol: Seq<char>| self.symbols@.contains_key(symbol),
                |symbol: Seq<char>| self.feeds@[self.symbols@[symbol] as int].sense(),
            ),
        }
    }
}

impl Gate {
    /// Every symbol has a feed of its own, and every feed a book of its own.
    pub closed spec fn wf(&self) -> bool {
        &&& forall|symbol: Seq<char>| #[trigger]
            self.symbols@.contains_key(symbol) ==> self.symbols@[symbol] < self.feeds@.len()
        &&& forall|a: Seq<char>, b: Seq<char>|
            #![trigger self.symbols@[a], self.symbols@[b]]
            self.symbols@.contains_key(a) && self.symbols@.contains_key(b) && self.symbols@[a]
                == self.symbols@[b] ==> a == b
        &&& forall|i: int|
            0 <= i < self.feeds@.len() ==> (#[trigger] self.feeds@[i]).book < self.books@.len()
        &&& forall|i: int, j: int|
            0 <= i < j < self.feeds@.len() ==> (#[trigger] self.feeds@[i]).book != (
            #[trigger] self.feeds@[j]).book
    }

    /// Another book in the place of one.
    proof fn lemma_book_changed(before: Gate, after: Gate, book: int)
        requires
            before.wf(),
            0 <= book < before.books@.len(),
            after.books@.len() == before.books@.len(),
            after.books@ == before.books@.update(book, after.books@[book]),
            after.market == before.market,
            after.feeds@ == before.feeds@,
            after.symbols@ == before.symbols@,
        ensures
            after.wf(),
            after@ == before@.with_book(book, after.books@[book]@),
    {
        assert(after@.books =~= before@.with_book(book, after.books@[book]@).books);
        assert(after@.feeds =~= before@.feeds);
    }

    /// Another feed, with the same book, in the place of a symbol's.
    proof fn lemma_feed_changed(before: Gate, after: Gate, symbol: Seq<char>)
        requires
            before.wf(),
            before.symbols@.contains_key(symbol),
            ({
                let place = before.symbols@[symbol] as int;
                &&& after.feeds@ == before.feeds@.update(place, after.feeds@[place])
                &&& after.feeds@[place].book == before.feeds@[place].book
            }),
            after.market == before.market,
            after.books@ == before.books@,
            after.symbols@ == before.symbols@,
        ensures
            after.wf(),
            after@ == before@.with_feed(
                symbol,
                after.feeds@[before.symbols@[symbol] as int].sense(),
            ),
    {
        let place = before.symbols@[symbol] as int;
        assert(after@.feeds =~= before@.with_feed(symbol, after.feeds@[place].sense()).feeds);
        assert(after@.books =~= before@.books);
    }

    /// In a gate every symbol has a book of its own.
    pub proof fn law_gate_is_consistent(&self)
        requires
            self.wf(),
        ensures
            self@.consistent(),
    {
    }

    /// A gate that watches nothing.
    pub fn new(market: MarketType) -> (gate: Gate)
        ensures
            gate.wf(),
            gate@ == (GateView { market, books: Seq::empty(), feeds: Map::empty() }),
    {
        let gate = Gate {
            market,
            books: Vec::new(),
            feeds: Vec::new(),
            symbols: StringHashMap::new(),
        };
        proof {
            assert(gate@.books =~= Seq::empty());
            assert(gate@.feeds =~= Map::empty());
        }
        gate
    }

    /// The message that asks the exchange for the updates of a symbol.
    pub fn subscribe_message(&self, symbol: &str, time: u64) -> (text: String)
        ensures
            text@ == rendered_json(subscription(self@.market, normalized(symbol@), time)),
    {
        let channel: &str = if self.market == MarketType::Spot {
            "spot.order_book_update"
        } else {
            "futures.order_book_update"
        };
        let mut payload: Vec<serde_json::Value> = Vec::new();
        payload.push(text_value(normalize_symbol(symbol)));
        payload.push(text_value("100ms".to_owned()));
        let ghost items = payload@.map_values(|item: serde_json::Value| json_tree(item));
        assert(items =~= seq![JsonView::Text(normalized(symbol@)), JsonView::Text("100ms"@)]);
        let mut members: Vec<(String, serde_json::Value)> = Vec::new();
        let ghost empty = members@;
        members.push(("time".to_owned(), whole_value(time)));
        let ghost one = members@;
        members.push(("channel".to_owned(), text_value(channel.to_owned())));
        let ghost two = members@;
        members.push(("event".to_owned(), text_value("subscribe".to_owned())));
        let ghost three = members@;
        members.push(("payload".to_owned(), array_value(payload)));
        proof {
            assert(one.drop_last() =~= empty);
            assert(two.drop_last() =~= one);
            assert(three.drop_last() =~= two);
            assert(members@.drop_last() =~= three);
            assert(value_members(empty) == Map::<Seq<char>, JsonView>::empty());
            assert(value_members(two) == value_members(one).insert(
                "channel"@,
                JsonView::Text(channel@),
            ));
            assert(value_members(three) == value_members(two).insert(
                "event"@,
                JsonView::Text("subscribe"@),
            ));
            assert(value_members(members@) == value_members(three).insert(
                "payload"@,
                JsonView::Array(items),
            ));
            reveal_with_fuel(whole_numbers, 4);
            reveal_strlit("time");
            reveal_strlit("channel");
            reveal_strlit("event");
            reveal_strlit("payload");
            assert forall|i: int, j: int| 0 <= i < j < members@.len() implies (
            #[trigger] members@[i]).0@ != (#[trigger] members@[j]).0@ by {
                assert(members@[0].0@ == "time"@ && members@[1].0@ == "channel"@);
                assert(members@[2].0@ == "event"@ && members@[3].0@ == "payload"@);
                assert("time"@[0] == 't' && "event"@[0] == 'e' && "payload"@[0] == 'p');
                assert("channel"@[0] == 'c');
            }
            assert(distinct_names(members@));
        }
        render_value(&object_value(members))
    }

    /// Gives a symbol an empty book and feed, once its updates were asked for.
    pub fn watch(&mut self, symbol: &str)
        requires
            old(self).wf(),
        ensures
            final(self).wf(),
            final(self)@ == old(self)@.watching(normalized(symbol@)),
    {
        let name: String = normalize_symbol(symbol);
        let ghost key = name@;
        let ghost start = *self;
        let feed = Feed {
            book: self.books.len(),
            history: HistoryBids::new(),
            pending: Vec::new(),
        };
        let ghost fresh = feed.sense();
        self.books.push(OrderBook::default());
        let known: Option<usize> = match self.symbols.get(name.as_str()) {
            Some(place) => Some(*place),
            None => None,
        };
        match known {
            Some(place) => {
                self.feeds[place] = feed;
            },
            None => {
                self.symbols.insert(name, self.feeds.len());
                self.feeds.push(feed);
            },
        }
        proof {
            assert(fresh.pending =~= Seq::empty());
            assert(self@.books =~= start@.watching(key).books);
            assert(self@.feeds =~= start@.watching(key).feeds);
        }
    }

    /// The book of a symbol, by the exchange's name for it.
    pub fn book(&self, name: &str) -> (book: Option<&OrderBook>)
        requires
            self.wf(),
        ensures
            match book {
                Some(found) => self@.feeds.contains_key(name@) && found@
                    == self@.books[self@.feeds[name@].book],
                None => !self@.feeds.contains_key(name@),
            },
    {
        match self.symbols.get(name) {
            Some(place) => Some(&self.books[self.feeds[*place].book]),
            None => None,
        }
    }

    /// The bid prices that a symbol has named, by the exchange's name for it.
    pub fn history(&self, name: &str) -> (history: Option<&HistoryBids>)
        requires
            self.wf(),
        ensures
            match history {
                Some(found) => self@.feeds.contains_key(name@) && found@
                    == self@.feeds[name@].history,
                None => !self@.feeds.contains_key(name@),
            },
    {
        match self.symbols.get(name) {
            Some(place) => Some(&self.feeds[*place].history),
            None => None,
        }
    }

    /// Marks the levels of a book with another id.
    fn mark(&mut self, book: usize, update_id: u64)
        requires
            old(self).wf(),
            book < old(self)@.books.len(),
        ensures
            final(self).wf(),
            final(self)@ == old(self)@.with_book(
                book as int,
                old(self)@.books[book as int].marked(update_id),
            ),
    {
        self.books[book].update_id = update_id;
        proof {
            Self::lemma_book_changed(*old(self), *self, book as int);
        }
    }

    /// Follows an update of a watched symbol.
    pub fn handle_update(&mut self, symbol: &str, update: OrderBookUpdate) -> (step: Result<
        Step,
        MessageError,
    >)
        requires
            old(self).wf(),
        ensures
            final(self).wf(),
            match step {
                Ok(found) => old(self)@.feeds.contains_key(symbol@) && (final(self)@, found@)
                    == after_update(old(self)@, symbol@, update@),
                Err(error) => error == MessageError::NotSubscribed && !old(
                    self,
                )@.feeds.contains_key(symbol@) && final(self)@ == old(self)@,
            },
    {
        let place: usize = match self.symbols.get(symbol) {
            Some(place) => *place,
            None => return Err(MessageError::NotSubscribed),
        };
        let book: usize = self.feeds[place].book;
        let update_id: u64 = self.books[book].update_id;
        let ghost start = *self;
        assert(start@.feeds[symbol@] == start.feeds@[place as int].sense());
        if update_id == 0 {
            if update.full {
                self.books[book].apply_update(&update);
                proof {
                    Self::lemma_book_changed(start, *self, book as int);
                }
                Ok(Step::Done)
            } else {
                self.mark(book, 1);
                Ok(
                    Step::FetchSnapshot(
                        SnapshotTask {
                            symbol: symbol.to_owned(),
                            book,
                            first_update_id: update.first_update_id,
                        },
                    ),
                )
            }
        } else if update_id == 1 {
            let ghost news = update@;
            self.feeds[place].pending.push(update);
            proof {
                Self::lemma_feed_changed(start, *self, symbol@);
                let feed = self.feeds@[place as int];
                assert(feed.sense().pending =~= start.feeds@[place as int].sense().pending.push(
                    news,
                ));
            }
            Ok(Step::Done)
        } else if update.continues_from(update_id) {
            self.books[book].apply_update(&update);
            let ghost middle = *self;
            proof {
                Self::lemma_book_changed(start, middle, book as int);
            }
            self.feeds[place].history.note(&update.bids);
            proof {
                Self::lemma_feed_changed(middle, *self, symbol@);
            }
            match self.feeds[place].history.find_outside(&self.books[book].bids) {
                Some(price) => Ok(Step::BidOutsideHistory(price)),
                None => Ok(Step::Done),
            }
        } else {
            self.books[book] = OrderBook::default();
            proof {
                Self::lemma_book_changed(start, *self, book as int);
            }
            Ok(Step::Done)
        }
    }

    /// Follows a message that was read.
    pub fn handle_parsed(&mut self, message: &Json) -> (step: Result<Step, MessageError>)
        requires
            old(self).wf(),
        ensures
            final(self).wf(),
            final(self)@ == after_message(old(self)@, message@).0,
            match step {
                Ok(found) => after_message(old(self)@, message@).1 == Ok::<_, MessageError>(
                    found@,
                ),
                Err(error) => after_message(old(self)@, message@).1 == Err::<StepView, _>(error),
            },
            names_watched(old(self)@, message@) ==> step is Ok == readable_update(
                message@.field("result"@),
                old(self)@.market,
            ),
    {
        let is_update: bool = match message.get("event") {
            Some(event) => match event.as_text() {
                Some(name) => same_text(name, "update"),
                None => false,
            },
            None => false,
        };
        if !is_update {
            return Ok(Step::Ignored);
        }
        let result: &Json = match message.get("result") {
            Some(result) => result,
            None => return Err(MessageError::MissingResult),
        };
        let symbol: &str = match result.get("s") {
            Some(value) => match value.as_text() {
                Some(symbol) => symbol,
                None => return Err(MessageError::MissingSymbol),
            },
            None => return Err(MessageError::MissingSymbol),
        };
        if !self.symbols.contains_key(symbol) {
            return Err(MessageError::NotSubscribed);
        }
        match Self::build_update(result, &self.market) {
            Some(update) => self.handle_update(symbol, update),
            None => Err(MessageError::MalformedUpdate),
        }
    }

    /// Follows a message. What is no JSON is ignored.
    pub fn handle_message(&mut self, text: &str) -> (step: Result<Step, MessageError>)
        requires
            old(self).wf(),
        ensures
            final(self).wf(),
            match parsed_json(text@) {
                Some(message) => {
                    &&& final(self)@ == after_message(old(self)@, message).0
                    &&& match step {
                        Ok(found) => after_message(old(self)@, message).1 == Ok::<_, MessageError>(
                            found@,
                        ),
                        Err(error) => after_message(old(self)@, message).1 == Err::<StepView, _>(
                            error,
                        ),
                    }
                    &&& names_watched(old(self)@, message) ==> step is Ok == readable_update(
                        message.field("result"@),
                        old(self)@.market,
                    )
                },
                None => final(self)@ == old(self)@ && step matches Ok(Step::Ignored),
            },
    {
        match parse_json(text) {
            Ok(message) => self.handle_parsed(&message),
            Err(_) => Ok(Step::Ignored),
        }
    }

    /// Reads the update that a message's result holds.
    pub fn build_update(parsed: &Json, market: &MarketType) -> (update: Option<OrderBookUpdate>)
        ensures
            match update {
                Some(found) => update_of(parsed@, *market) == Some(found@),
                None => update_of(parsed@, *market) is None,
            },
            update is Some == readable_update(parsed@, *market),
    {
        read_update(parsed, market)
    }

    /// Holds a snapshot against the updates that have come.
    pub fn align(&mut self, task: AlignTask) -> (step: Step)
        requires
            old(self).wf(),
        ensures
            final(self).wf(),
            (final(self)@, step@) == after_attempt(old(self)@, task@),
    {
        if task.book >= self.books.len() {
            return Step::Ignored;
        }
        if task.retries >= MAX_RETRIES {
            self.mark(task.book, 0);
            return Step::Done;
        }
        let place: usize = match self.symbols.get(task.symbol.as_str()) {
            Some(place) => *place,
            None => return Step::Ignored,
        };
        let ghost start = *self;
        assert(start@.feeds[task.symbol@] == start.feeds@[place as int].sense());
        let mut pending: Vec<OrderBookUpdate> = Vec::new();
        std::mem::swap(&mut pending, &mut self.feeds[place].pending);
        let ghost waiting = update_views(pending@);
        let ghost taken = *self;
        proof {
            Self::lemma_feed_changed(start, taken, task.symbol@);
            assert(taken.feeds@[place as int].sense().pending =~= Seq::empty());
            assert(waiting == start@.feeds[task.symbol@].pending);
        }
        let from: usize = find_continuing(&pending, task.snapshot.update_id);
        if from == pending.len() {
            let AlignTask { symbol, book, snapshot, retries } = task;
            return Step::Sleep(AlignTask { symbol, book, snapshot, retries: retries + 1 });
        }
        let AlignTask { symbol, book, snapshot, .. } = task;
        self.feeds[place].history.note_levels(&snapshot.bids);
        self.books[book] = snapshot;
        replay(&mut self.books[book], &mut self.feeds[place].history, &pending, from);
        proof {
            let middle = Gate { books: self.books, ..taken };
            assert(middle.books@ =~= taken.books@.update(book as int, middle.books@[book as int]));
            assert(self.feeds@ =~= taken.feeds@.update(place as int, self.feeds@[place as int]));
            Self::lemma_book_changed(taken, middle, book as int);
            Self::lemma_feed_changed(middle, *self, symbol@);
            let feed = self.feeds@[place as int].sense();
            assert(start@.feeds.insert(symbol@, taken@.feeds[symbol@]).insert(symbol@, feed)
                =~= start@.feeds.insert(symbol@, feed));
        }
        Step::Done
    }

    /// Takes the end of a fetch: the snapshot, or that there is none.
    pub fn handle_snapshot(&mut self, task: SnapshotTask, snapshot: Option<OrderBook>) -> (step:
        Step)
        requires
            old(self).wf(),
        ensures
            final(self).wf(),
            (final(self)@, step@) == after_fetch(
                old(self)@,
                task.symbol@,
                task.book as int,
                match snapshot {
                    Some(found) => Some(found@),
                    None => None,
                },
            ),
    {
        let SnapshotTask { symbol, book, .. } = task;
        match snapshot {
            Some(snapshot) => self.align(AlignTask { symbol, book, snapshot, retries: 0 }),
            None => if book < self.books.len() {
                self.mark(book, 0);
                Step::Done
            } else {
                Step::Ignored
            },
        }
    }
}

} // verus!
