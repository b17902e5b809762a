//! Which requests go out.

use vstd::prelude::*;

use crate::connection::GATE_COUNT;
use crate::http::{
    assets_request_of, snapshot_request_of, HttpRequest, ASSETS_LIMIT, CONNECT_TIMEOUT_SECS,
    REQUEST_TIMEOUT_SECS, SNAPSHOT_LIMIT,
};
use crate::market::MarketType;
use crate::order::BookView;
use crate::snapshot::{fetch_step, FetchStep, FetchStepView, FetchView};

verus! {

/// A fetch ends with the first snapshot at the wanted id or later, asks again, for
/// the same, while fewer than five answers came, and fails after the fifth.
pub proof fn law_fetch_asks_up_to_five_times(fetch: FetchView, snapshot: BookView)
    ensures
        match fetch_step(fetch, snapshot) {
            FetchStepView::Finished(book) => snapshot.update_id >= fetch.first_update_id && book
                == snapshot,
            FetchStepView::Request(next, _) => {
                &&& snapshot.update_id < fetch.first_update_id
                &&& fetch.requests < 5
                &&& next.market == fetch.market
                &&& next.symbol == fetch.symbol
                &&& next.first_update_id == fetch.first_update_id
                &&& next.requests == fetch.requests
            },
            FetchStepView::MaxRetry => snapshot.update_id < fetch.first_update_id && fetch.requests
                >= 5,
        },
{
}

/// Every request of a fetch, the first and each later one, is a GET of the order book
/// of the fetch's own symbol on the fetch's own market, and asks for JSON.
pub proof fn law_fetch_asks_own_market(fetch: FetchView, snapshot: BookView)
    ensures
        fetch_step(fetch, snapshot) matches FetchStepView::Request(_, request) ==> {
            &&& request.method == "GET"@
            &&& fetch.market is Spot ==> request.uri
                == "https://api.gateio.ws/api/v4/spot/order_book?currency_pair="@ + fetch.symbol
                + "&limit=100&with_id=true"@
            &&& fetch.market is Future ==> request.uri
                == "https://fx-api.gateio.ws/api/v4/futures/usdt/order_book?contract="@
                + fetch.symbol + "&limit=100&with_id=true"@
            &&& request.headers.len() == 1
            &&& request.headers[0] == ("Accept"@, "application/json"@)
            &&& request.limit == 10 * 1024 * 1024
        },
{
}

/// The request for a snapshot is a GET of the symbol's order book on the market's own
/// address.
pub proof fn law_snapshot_request_names_symbol(market: MarketType, symbol: Seq<char>)
    ensures
        ({
            let request = snapshot_request_of(market, symbol);
            &&& request.method == "GET"@
            &&& market is Spot ==> request.uri
                == "https://api.gateio.ws/api/v4/spot/order_book?currency_pair="@ + symbol
                + "&limit=100&with_id=true"@
            &&& market is Future ==> request.uri
                == "https://fx-api.gateio.ws/api/v4/futures/usdt/order_book?contract="@ + symbol
                + "&limit=100&with_id=true"@
            &&& request.headers.len() == 1
            &&& request.headers[0] == ("Accept"@, "application/json"@)
            &&& request.limit == 10 * 1024 * 1024
        }),
{
}

/// The request for the assets is a GET of the market's own list, without headers.
pub proof fn law_assets_request_names_market(market: MarketType)
    ensures
        ({
            let request = assets_request_of(market);
            &&& request.method == "GET"@
            &&& market is Spot ==> request.uri
                == "https://api.gateio.ws/api/v4/spot/currency_pairs"@
            &&& market is Future ==> request.uri
                == "https://fx-api.gateio.ws/api/v4/futures/usdt/contracts"@
            &&& request.headers.len() == 0
            &&& request.limit == 100 * 1024 * 1024
        }),
{
}

/// A request is seen as what its fields hold.
pub proof fn law_request_is_its_fields(request: HttpRequest, i: int)
    ensures
        request@.method == request.method@,
        request@.uri == request.uri@,
        request@.limit == request.limit,
        request@.headers.len() == request.headers@.len(),
        0 <= i < request.headers@.len() ==> request@.headers[i] == (
            request.headers@[i].0@,
            request.headers@[i].1@,
        ),
{
}

/// A step of a fetch is seen as what it holds.
pub proof fn law_fetch_step_is_its_fields(step: FetchStep)
    ensures
        match step {
            FetchStep::Request(fetch, request) => step@ == FetchStepView::Request(fetch@, request@),
            FetchStep::Finished(book) => step@ == FetchStepView::Finished(book@),
            FetchStep::MaxRetry => step@ == FetchStepView::MaxRetry,
        },
{
}

/// The limits of the client: seconds to connect and to answer, bytes of an answer,
/// and connections.
pub proof fn law_limits()
    ensures
        CONNECT_TIMEOUT_SECS == 15,
        REQUEST_TIMEOUT_SECS == 10,
        SNAPSHOT_LIMIT == 10 * 1024 * 1024,
        ASSETS_LIMIT == 100 * 1024 * 1024,
        GATE_COUNT == 16,
{
}

} // verus!
