//! What goes out over HTTP.

use vstd::prelude::*;
use vstd::string::*;

use crate::market::MarketType;

verus! {

/// How long a connection may take to come about, in seconds.
pub const CONNECT_TIMEOUT_SECS: u64 = 15;

/// How long an answer may take, in seconds.
pub const REQUEST_TIMEOUT_SECS: u64 = 10;

/// The largest answer to a request for a snapshot, in bytes.
pub const SNAPSHOT_LIMIT: usize = 10_485_760;

/// The largest answer to a request for the assets, in bytes.
pub const ASSETS_LIMIT: usize = 104_857_600;

/// Something that may go out as the body of a request. A type that does not say
/// what is sent for it cannot be sent.
pub trait HttpBody {
    /// The bytes that are sent, where the body can be sent.
    fn payload(&self) -> (payload: Option<Vec<u8>>)
        default_ensures
            payload is None,
    {
        None
    }
}

impl HttpBody for Vec<u8> {
    fn payload(&self) -> (payload: Option<Vec<u8>>)
        ensures
            payload matches Some(bytes) && bytes@ == self@,
    {
        Some(vstd::slice::slice_to_vec(self.as_slice()))
    }
}

impl HttpBody for String {
    fn payload(&self) -> (payload: Option<Vec<u8>>)
        ensures
            payload matches Some(bytes) && bytes@ == vstd::utf8::encode_utf8(self@),
    {
        Some(self.as_str().as_bytes_vec())
    }
}

impl HttpBody for &'static [u8] {
    fn payload(&self) -> (payload: Option<Vec<u8>>)
        ensures
            payload matches Some(bytes) && bytes@ == self@,
    {
        Some(vstd::slice::slice_to_vec(*self))
    }
}

/// A body cannot be sent.
#[derive(Clone, Copy, Debug, PartialEq, Eq, Structural)]
pub struct BodyError();

impl BodyError {
    /// What the error says.
    pub fn message(&self) -> (message: &'static str)
        ensures
            message@ == "Invalid body"@,
    {
        "Invalid body"
    }
}

/// The bytes to send for a request's body: what the body gives as its payload, an
/// error where it gives none, and nothing where there is no body.
pub fn request_payload<B: HttpBody + ?Sized>(body: Option<Box<B>>) -> (payload: Result<
    Option<Vec<u8>>,
    BodyError,
>)
    ensures
        match body {
            None => payload matches Ok(None),
            Some(body) => payload != Ok::<Option<Vec<u8>>, BodyError>(None) && call_ensures(
                B::payload,
                (&*body,),
                match payload {
                    Ok(sent) => sent,
                    Err(_) => None,
                },
            ),
        },
{
    match body {
        None => Ok(None),
        Some(body) => match (*body).payload() {
            Some(bytes) => Ok(Some(bytes)),
            None => Err(BodyError()),
        },
    }
}

/// Puts the error of a result in a box.
pub fn boxed_err<R, E>(result: Result<R, E>) -> (boxed: Result<R, Box<E>>)
    ensures
        match result {
            Ok(value) => boxed == Ok::<R, Box<E>>(value),
            Err(error) => boxed == Err::<R, Box<E>>(Box::new(error)),
        },
{
    match result {
        Ok(value) => Ok(value),
        Err(error) => Err(Box::new(error)),
    }
}

/// A request to the exchange, without a body.
pub struct HttpRequest {
    pub method: String,
    pub uri: String,
    pub headers: Vec<(String, String)>,
    /// The largest answer to take, in bytes.
    pub limit: usize,
}

/// What a request says.
pub struct RequestView {
    pub method: Seq<char>,
    pub uri: Seq<char>,
    pub headers: Seq<(Seq<char>, Seq<char>)>,
    pub limit: usize,
}

impl View for HttpRequest {
    type V = RequestView;

    open spec fn view(&self) -> RequestView {
        RequestView {
            method: self.method@,
            uri: self.uri@,
            headers: self.headers@.map_values(|header: (String, String)| (header.0@, header.1@)),
            limit: self.limit,
        }
    }
}

/// The request for a snapshot of a symbol's book.
pub open spec fn snapshot_request_of(market: MarketType, symbol: Seq<char>) -> RequestView {
    RequestView {
        method: "GET"@,
        uri: match market {
            MarketType::Spot => "https://api.gateio.ws/api/v4/spot/order_book?currency_pair="@
                + symbol + "&limit=100&with_id=true"@,
            MarketType::Future =>
                "https://fx-api.gateio.ws/api/v4/futures/usdt/order_book?contract="@ + symbol
                + "&limit=100&with_id=true"@,
        },
        headers: seq![("Accept"@, "application/json"@)],
        limit: SNAPSHOT_LIMIT,
    }
}

/// The request for the assets of a market.
pub open spec fn assets_request_of(market: MarketType) -> RequestView {
    RequestView {
        method: "GET"@,
        uri: match market {
            MarketType::Spot => "https://api.gateio.ws/api/v4/spot/currency_pairs"@,
            MarketType::Future => "https://fx-api.gateio.ws/api/v4/futures/usdt/contracts"@,
        },
        headers: Seq::empty(),
        limit: ASSETS_LIMIT,
    }
}

/// Writes the request for a snapshot of a symbol's book.
pub fn snapshot_request(market: &MarketType, symbol: &str) -> (request: HttpRequest)
    ensures
        request@ == snapshot_request_of(*market, symbol@),
{
    let start: &str = match market {
        MarketType::Spot => "https://api.gateio.ws/api/v4/spot/order_book?currency_pair=",
        MarketType::Future => "https://fx-api.gateio.ws/api/v4/futures/usdt/order_book?contract=",
    };
    let mut headers: Vec<(String, String)> = Vec::new();
    headers.push(("Accept".to_owned(), "application/json".to_owned()));
    let request = HttpRequest {
        method: "GET".to_owned(),
        uri: start.to_owned().concat(symbol).concat("&limit=100&with_id=true"),
        headers,
        limit: SNAPSHOT_LIMIT,
    };
    assert(request@.headers =~= seq![("Accept"@, "application/json"@)]);
    request
}

/// Writes the request for the assets of a market.
pub fn assets_request(market: &MarketType) -> (request: HttpRequest)
    ensures
        request@ == assets_request_of(*market),
{
    let uri: &str = match market {
        MarketType::Spot => "https://api.gateio.ws/api/v4/spot/currency_pairs",
        MarketType::Future => "https://fx-api.gateio.ws/api/v4/futures/usdt/contracts",
    };
    let request = HttpRequest {
        method: "GET".to_owned(),
        uri: uri.to_owned(),
        headers: Vec::new(),
        limit: ASSETS_LIMIT,
    };
    assert(request@.headers =~= Seq::empty());
    request
}

} // verus!
