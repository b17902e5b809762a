use gatebook::amount::Amount;
use gatebook::asset::{
    assemble_assets, assets_from_response, body_error, read_assets, request_error, Assets,
    AssetMap, ExchangeError,
};
use gatebook::connection::{frame_action, gate_index, Frame, FrameAction};
use gatebook::http::{
    assets_request, boxed_err, request_payload, snapshot_request, BodyError, HttpBody,
};
use gatebook::json::parse_json;
use gatebook::market::MarketType;
use gatebook::order::OrderBook;
use gatebook::snapshot::{
    FetchStep, FutureDepthSnapshot, FutureDepthSnapshotItem, SnapshotFetch, SpotDepthSnapshot,
    MAX_REQUESTS,
};
use gatebook::symbol::{normalize_symbol, symbol_name};
use gatebook::text::{same_text, split_at_mark};

fn n(number: i128) -> Amount {
    Amount::from_parts(number, 0).unwrap()
}

const SPOT: &str = "[
    {\"id\":\"BTC_USDT\",\"trade_status\":\"tradable\"},
    {\"id\":\"OLD_USDT\",\"trade_status\":\"untradable\"},
    {\"trade_status\":\"tradable\"},
    {\"id\":\"A_B_C\",\"trade_status\":\"tradable\"},
    7
]";

#[test]
fn tradable_assets_are_listed() {
    let assets = assets_from_response(SPOT.as_bytes(), &MarketType::Spot).unwrap();
    let symbols: Vec<&str> = assets.iter().map(|asset| asset.symbol.as_str()).collect();
    assert_eq!(symbols, vec!["BTC/USDT", "/", "A/B_C"]);
    assert_eq!(assets[0].base, "BTC");
    assert_eq!(assets[0].quote, "USDT");
    assert_eq!(assets[0].exchange, "Gate");
    assert_eq!(assets[0].market, MarketType::Spot);

    let list = parse_json("[{\"name\":\"BTC_USDT\",\"status\":\"trading\"},{\"name\":\"X_Y\"}]");
    let assets = read_assets(&list.unwrap(), &MarketType::Future);
    assert_eq!(assets.len(), 1);
    assert_eq!(assets[0].symbol, "BTC/USDT:USDT");
    assert_eq!(assets[0].market, MarketType::Future);

    let none = assets_from_response(b"{\"a\":1}", &MarketType::Spot).unwrap();
    assert!(none.is_empty());
}

#[test]
fn unreadable_lists_are_errors() {
    match assets_from_response(&[0x5b, 0xff], &MarketType::Spot) {
        Err(ExchangeError::ApiError(message)) => assert_eq!(
            message,
            "Resposta inválida: Utf8Error { valid_up_to: 1, error_len: Some(1) }"
        ),
        _ => panic!("these bytes are no text"),
    }
    match assets_from_response(b"[", &MarketType::Spot) {
        Err(ExchangeError::JsonError(error)) => {
            assert_eq!(error.to_string(), "EOF while parsing a list at line 1 column 1")
        }
        _ => panic!("the list does not end"),
    }
    match request_error("timeout") {
        ExchangeError::ApiError(message) => assert_eq!(message, "Erro ao buscar ativos: timeout"),
        _ => panic!(),
    }
    match body_error("overflow") {
        ExchangeError::ApiError(message) => assert_eq!(message, "Corpo inválido: overflow"),
        _ => panic!(),
    }
}

#[test]
fn assets_are_collected_by_symbol() {
    let spot = assets_from_response(SPOT.as_bytes(), &MarketType::Spot);
    let twice = "[{\"name\":\"B_C\",\"status\":\"trading\"},{\"name\":\"B_C\",\"status\":\"trading\"}]";
    let future = assets_from_response(twice.as_bytes(), &MarketType::Future);
    let assets = assemble_assets(spot, future).unwrap();
    assert_eq!(assets.spot.assets().len(), 3);
    assert_eq!(assets.future.assets().len(), 1);
    let copy = assets.clone();
    assert_eq!(copy.future.assets()[0].symbol, "B/C:C");
    assert!(Assets::new().spot.assets().is_empty());
    assert!(AssetMap::new().assets().is_empty());
}

#[test]
fn assets_are_found_by_symbol() {
    let spot = assets_from_response(SPOT.as_bytes(), &MarketType::Spot).unwrap();
    let map = AssetMap::from_assets(spot);
    assert_eq!(map.get("A/B_C").unwrap().quote, "B_C");
    assert_eq!(map.get("BTC/USDT").unwrap().base, "BTC");
    assert!(map.get("OLD/USDT").is_none());
    assert!(AssetMap::new().get("").is_none());
}

#[test]
fn last_result_alone_is_kept() {
    let read = |text: &str| assets_from_response(text.as_bytes(), &MarketType::Spot);
    let first = "[{\"id\":\"A_B\",\"trade_status\":\"tradable\"},{\"id\":\"C_D\",\"trade_status\":\"tradable\"}]";
    let second = "[{\"id\":\"C_D\",\"trade_status\":\"tradable\"}]";
    let mut kept = Assets::new();
    assert_eq!(kept.replace(read(first), read(first)).unwrap().spot.assets().len(), 2);
    assert!(kept.replace(read("["), read(second)).is_err());
    assert!(kept.replace(read(second), read("[")).is_err());
    assert!(kept.spot.get("A/B").is_some() && kept.future.get("A/B").is_some());
    let given = kept.replace(read(second), read("[]")).unwrap();
    assert!(kept.spot.get("A/B").is_none() && given.spot.get("A/B").is_none());
    assert!(kept.spot.get("C/D").is_some() && given.spot.get("C/D").is_some());
    assert!(kept.future.assets().is_empty() && given.future.assets().is_empty());
}

#[test]
fn first_error_of_the_markets_counts() {
    let both = assemble_assets(Err(request_error("s")), Err(request_error("f")));
    assert!(matches!(both, Err(ExchangeError::ApiError(m)) if m == "Erro ao buscar ativos: s"));
    let second = assemble_assets(Ok(vec![]), Err(request_error("f")));
    assert!(matches!(second, Err(ExchangeError::ApiError(m)) if m == "Erro ao buscar ativos: f"));
}

#[test]
fn symbols_lead_back_to_names() {
    for name in ["BTC_USDT", "A_B_C", "X_"] {
        for market in [MarketType::Spot, MarketType::Future] {
            let (base, quote) = split_at_mark(name, '_');
            assert_eq!(normalize_symbol(&symbol_name(&market, base, quote)), name);
        }
    }
    assert_eq!(symbol_name(&MarketType::Spot, "BTC", "USDT"), "BTC/USDT");
    assert_eq!(normalize_symbol("BTC_USDT"), "BTC_USDT");
    assert_eq!(normalize_symbol("ÄÖ/Ü:Ü"), "ÄÖ_Ü");
    assert_eq!(split_at_mark("abc", '_'), ("abc", ""));
    assert!(same_text("a", "a"));
    assert!(!same_text("a", "b"));
}

#[test]
fn requests_are_written_for_each_market() {
    let spot = snapshot_request(&MarketType::Spot, "BTC_USDT");
    assert_eq!(
        spot.uri,
        "https://api.gateio.ws/api/v4/spot/order_book?currency_pair=BTC_USDT&limit=100&with_id=true"
    );
    assert_eq!(spot.method, "GET");
    assert_eq!(spot.headers, vec![("Accept".to_string(), "application/json".to_string())]);
    assert_eq!(spot.limit, 10 * 1024 * 1024);
    assert_eq!(
        snapshot_request(&MarketType::Future, "X").uri,
        "https://fx-api.gateio.ws/api/v4/futures/usdt/order_book?contract=X&limit=100&with_id=true"
    );
    let assets = assets_request(&MarketType::Future);
    assert_eq!(assets.uri, "https://fx-api.gateio.ws/api/v4/futures/usdt/contracts");
    assert_eq!(assets.limit, 100 * 1024 * 1024);
    assert!(assets.headers.is_empty());
    assert_eq!(
        assets_request(&MarketType::Spot).uri,
        "https://api.gateio.ws/api/v4/spot/currency_pairs"
    );
}

#[test]
fn old_snapshots_are_asked_for_again() {
    let mut step = SnapshotFetch::start(MarketType::Spot, "BTC_USDT".to_string(), 10);
    let mut requests = 0;
    while let FetchStep::Request(fetch, request) = step {
        requests += 1;
        assert!(request.uri.contains("currency_pair=BTC_USDT"));
        step = fetch.received(OrderBook::from_levels(9, &vec![], &vec![]));
    }
    assert!(matches!(step, FetchStep::MaxRetry));
    assert_eq!(requests, MAX_REQUESTS);
}

#[test]
fn recent_snapshot_ends_the_fetch() {
    let step = SnapshotFetch::start(MarketType::Spot, "BTC_USDT".to_string(), 10);
    let fetch = match step {
        FetchStep::Request(fetch, _) => fetch,
        _ => panic!("a request is needed"),
    };
    match fetch.received(OrderBook::from_levels(10, &vec![], &vec![])) {
        FetchStep::Finished(book) => assert_eq!(book.update_id, 10),
        _ => panic!("the snapshot is recent enough"),
    }
    match SnapshotFetch::start(MarketType::Spot, "BTC_USDT".to_string(), 0) {
        FetchStep::Finished(book) => assert_eq!(book.update_id, 0),
        _ => panic!("any snapshot would do"),
    }
}

#[test]
fn snapshots_become_books() {
    let spot = SpotDepthSnapshot {
        id: 4,
        bids: vec![(n(1), n(2)), (n(1), n(3))],
        asks: vec![(n(5), n(0))],
    };
    let book = spot.into_book();
    assert_eq!(book.update_id, 4);
    assert_eq!(book.bids.levels(), vec![(n(1), n(3))]);
    assert_eq!(book.asks.levels(), vec![(n(5), n(0))]);
    let future = FutureDepthSnapshot {
        id: 6,
        bids: vec![FutureDepthSnapshotItem { p: n(1), s: n(2) }],
        asks: vec![],
    };
    let book = future.into_book();
    assert_eq!(book.update_id, 6);
    assert_eq!(book.bids.levels(), vec![(n(1), n(2))]);
    assert_eq!(book.asks.levels(), vec![]);
}

struct Unsendable;

impl HttpBody for Unsendable {}

#[test]
fn bodies_are_sent_as_bytes() {
    assert_eq!(request_payload(Some(Box::new(vec![1u8, 2]))), Ok(Some(vec![1, 2])));
    assert_eq!(request_payload(Some(Box::new("é".to_string()))), Ok(Some(vec![0xc3, 0xa9])));
    let fixed: &'static [u8] = &[7, 8];
    assert_eq!(request_payload(Some(Box::new(fixed))), Ok(Some(vec![7, 8])));
    assert_eq!(request_payload::<Vec<u8>>(None), Ok(None));
    assert_eq!(request_payload(Some(Box::new(Unsendable))), Err(BodyError()));
    assert_eq!(BodyError().message(), "Invalid body");
}

#[test]
fn bodies_of_any_type_stand_behind_one() {
    let bodies: Vec<Box<dyn HttpBody>> =
        vec![Box::new(vec![1u8]), Box::new("a".to_string()), Box::new(Unsendable)];
    let sent: Vec<_> = bodies.into_iter().map(|body| request_payload(Some(body))).collect();
    assert_eq!(sent, vec![Ok(Some(vec![1])), Ok(Some(vec![b'a'])), Err(BodyError())]);
}

#[test]
fn errors_are_boxed() {
    assert_eq!(boxed_err::<u8, u8>(Ok(1)), Ok(1));
    assert_eq!(boxed_err::<u8, u8>(Err(2)), Err(Box::new(2)));
}

#[test]
fn frames_ask_for_actions() {
    let text = frame_action(Frame::Text("hé".as_bytes().to_vec()));
    assert!(matches!(text, FrameAction::Handle(t) if t == "hé"));
    assert!(matches!(frame_action(Frame::Text(vec![0xff])), FrameAction::NotText));
    assert!(matches!(frame_action(Frame::Ping(vec![1, 2])), FrameAction::Pong(b) if b == [1, 2]));
    assert!(matches!(frame_action(Frame::Failed), FrameAction::Stop));
    assert!(matches!(frame_action(Frame::Other), FrameAction::Nothing));
}

#[test]
fn connections_are_taken_in_turn() {
    assert_eq!(gate_index(0), 0);
    assert_eq!(gate_index(15), 15);
    assert_eq!(gate_index(16), 0);
    assert_eq!(gate_index(37), 5);
}
