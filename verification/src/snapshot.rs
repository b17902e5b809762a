//! Snapshots of a book, and how one that is recent enough is fetched.

use vstd::prelude::*;

use crate::amount::Amount;
use crate::http::{snapshot_request, snapshot_request_of, HttpRequest, RequestView};
use crate::market::MarketType;
use crate::order::{collected, BookView, OrderBook};

verus! {

/// How many snapshots are asked for before the fetch fails.
pub const MAX_REQUESTS: u32 = 5;

/// A snapshot as the spot market sends it.
pub struct SpotDepthSnapshot {
    pub id: u64,
    pub bids: Vec<(Amount, Amount)>,
    pub asks: Vec<(Amount, Amount)>,
}

/// A level as the futures market sends it: a price and a quantity.
pub struct FutureDepthSnapshotItem {
    pub p: Amount,
    pub s: Amount,
}

/// A snapshot as the futures market sends it.
pub struct FutureDepthSnapshot {
    pub id: u64,
    pub bids: Vec<FutureDepthSnapshotItem>,
    pub asks: Vec<FutureDepthSnapshotItem>,
}

/// The prices and quantities of levels.
pub open spec fn item_pairs(items: Seq<FutureDepthSnapshotItem>) -> Seq<(Amount, Amount)> {
    items.map_values(|item: FutureDepthSnapshotItem| (item.p, item.s))
}

fn read_items(items: &Vec<FutureDepthSnapshotItem>) -> (pairs: Vec<(Amount, Amount)>)
    ensures
        pairs@ == item_pairs(items@),
{
    let mut pairs: Vec<(Amount, Amount)> = Vec::new();
    let mut i: usize = 0;
    while i < items.len()
        invariant
            i <= items@.len(),
            pairs@ == item_pairs(items@).take(i as int),
        decreases items@.len() - i,
    {
        pairs.push((items[i].p, items[i].s));
        assert(pairs@ =~= item_pairs(items@).take(i + 1));
        i = i + 1;
    }
    assert(pairs@ =~= item_pairs(items@));
    pairs
}

impl SpotDepthSnapshot {
    /// The book that the snapshot shows.
    pub fn into_book(self) -> (book: OrderBook)
        ensures
            book@ == (BookView {
                asks: collected(self.asks@),
                bids: collected(self.bids@),
                update_id: self.id,
            }),
    {
        OrderBook::from_levels(self.id, &self.asks, &self.bids)
    }
}

impl FutureDepthSnapshot {
    /// The book that the snapshot shows.
    pub fn into_book(self) -> (book: OrderBook)
        ensures
            book@ == (BookView {
                asks: collected(item_pairs(self.asks@)),
                bids: collected(item_pairs(self.bids@)),
                update_id: self.id,
            }),
    {
        OrderBook::from_levels(self.id, &read_items(&self.asks), &read_items(&self.bids))
    }
}

/// A snapshot is being fetched: one at `first_update_id` or later is wanted, and
/// so many requests were answered without it.
pub struct SnapshotFetch {
    market: MarketType,
    symbol: String,
    first_update_id: u64,
    requests: u32,
}

/// What a fetch stands for.
pub struct FetchView {
    pub market: MarketType,
    pub symbol: Seq<char>,
    pub first_update_id: u64,
    pub requests: nat,
}

impl View for SnapshotFetch {
    type V = FetchView;

    closed spec fn view(&self) -> FetchView {
        FetchView {
            market: self.market,
            symbol: self.symbol@,
            first_update_id: self.first_update_id,
            requests: self.requests as nat,
        }
    }
}

/// How a fetch goes on.
pub enum FetchStep {
    /// Send the request, and hand the answer in.
    Request(SnapshotFetch, HttpRequest),
    /// The snapshot is there.
    Finished(OrderBook),
    /// No answer was recent enough.
    MaxRetry,
}

/// What a step of a fetch says.
pub enum FetchStepView {
    Request(FetchView, RequestView),
    Finished(BookView),
    MaxRetry,
}

impl View for FetchStep {
    type V = FetchStepView;

    open spec fn view(&self) -> FetchStepView {
        match self {
            FetchStep::Request(fetch, request) => FetchStepView::Request(fetch@, request@),
            FetchStep::Finished(book) => FetchStepView::Finished(book@),
            FetchStep::MaxRetry => FetchStepView::MaxRetry,
        }
    }
}

/// How a fetch goes on from a snapshot: it ends with one that is recent enough,
/// and otherwise asks again, as long as it may.
pub open spec fn fetch_step(fetch: FetchView, snapshot: BookView) -> FetchStepView {
    if snapshot.update_id >= fetch.first_update_id {
        FetchStepView::Finished(snapshot)
    } else if fetch.requests >= MAX_REQUESTS {
        FetchStepView::MaxRetry
    } else {
        FetchStepView::Request(fetch, snapshot_request_of(fetch.market, fetch.symbol))
    }
}

/// Decides how a fetch goes on from a snapshot.
fn decide(
    market: MarketType,
    symbol: String,
    first_update_id: u64,
    requests: u32,
    snapshot: OrderBook,
) -> (step: FetchStep)
    ensures
        step@ == fetch_step(
            FetchView { market, symbol: symbol@, first_update_id, requests: requests as nat },
            snapshot@,
        ),
{
    if snapshot.update_id >= first_update_id {
        FetchStep::Finished(snapshot)
    } else if requests >= MAX_REQUESTS {
        FetchStep::MaxRetry
    } else {
        let request: HttpRequest = snapshot_request(&market, symbol.as_str());
        FetchStep::Request(SnapshotFetch { market, symbol, first_update_id, requests }, request)
    }
}

impl SnapshotFetch {
    #[verifier::type_invariant]
    spec fn may_ask(self) -> bool {
        self.requests < MAX_REQUESTS
    }

    /// Starts to fetch a snapshot at `first_update_id` or later. An empty book at
    /// id 0 counts as one to begin with.
    pub fn start(market: MarketType, symbol: String, first_update_id: u64) -> (step: FetchStep)
        ensures
            step@ == fetch_step(
                FetchView { market, symbol: symbol@, first_update_id, requests: 0 },
                BookView::empty(),
            ),
    {
        decide(market, symbol, first_update_id, 0, OrderBook::default())
    }

    /// Takes the snapshot that came in answer to a request.
    pub fn received(self, snapshot: OrderBook) -> (step: FetchStep)
        ensures
            step@ == fetch_step(
                FetchView { requests: self@.requests + 1, ..self@ },
                snapshot@,
            ),
    {
        proof {
            use_type_invariant(&self);
        }
        decide(self.market, self.symbol, self.first_update_id, self.requests + 1, snapshot)
    }
}

} // verus!
