use gatebook::amount::Amount;
use gatebook::gate::{Gate, MessageError, SnapshotTask, Step, MAX_RETRIES};
use gatebook::json::parse_json;
use gatebook::market::MarketType;
use gatebook::order::{OrderBook, OrderBookUpdate};

fn n(number: i128) -> Amount {
    Amount::from_parts(number, 0).unwrap()
}

fn pairs(levels: &[(i128, i128)]) -> Vec<(Amount, Amount)> {
    levels.iter().map(|(p, q)| (n(*p), n(*q))).collect()
}

fn update(first: u64, last: u64, bids: &[(i128, i128)]) -> OrderBookUpdate {
    OrderBookUpdate {
        asks: vec![],
        bids: pairs(bids),
        first_update_id: first,
        last_update_id: last,
        full: false,
    }
}

fn message(first: u64, last: u64, bids: &str) -> String {
    format!(
        "{{\"event\":\"update\",\"result\":{{\"s\":\"BTC_USDT\",\"U\":{first},\"u\":{last},\"a\":[],\"b\":{bids}}}}}"
    )
}

fn watching(market: MarketType) -> Gate {
    let mut gate = Gate::new(market);
    gate.watch("BTC/USDT:USDT");
    gate
}

fn task(step: Step) -> SnapshotTask {
    match step {
        Step::FetchSnapshot(task) => task,
        _ => panic!("a snapshot should be fetched"),
    }
}

fn snapshot(id: u64, bids: &[(i128, i128)]) -> OrderBook {
    OrderBook::from_levels(id, &vec![], &pairs(bids))
}

fn bids(gate: &Gate) -> Vec<(Amount, Amount)> {
    gate.book("BTC_USDT").unwrap().bids.levels()
}

fn id(gate: &Gate) -> u64 {
    gate.book("BTC_USDT").unwrap().update_id
}

/// A gate whose book stands at 11 with a bid of 5 at 100.
fn live() -> Gate {
    let mut gate = watching(MarketType::Future);
    let fetch = task(gate.handle_update("BTC_USDT", update(8, 9, &[])).unwrap());
    assert_eq!(fetch.symbol, "BTC_USDT");
    assert_eq!(fetch.first_update_id, 8);
    assert!(matches!(gate.handle_update("BTC_USDT", update(9, 10, &[])), Ok(Step::Done)));
    assert!(matches!(gate.handle_update("BTC_USDT", update(11, 11, &[(90, 0)])), Ok(Step::Done)));
    let step = gate.handle_snapshot(fetch, Some(snapshot(10, &[(100, 5), (90, 1)])));
    assert!(matches!(step, Step::Done));
    assert_eq!(id(&gate), 11);
    assert_eq!(bids(&gate), pairs(&[(100, 5)]));
    gate
}

#[test]
fn snapshot_and_waiting_updates_make_a_book() {
    let gate = live();
    let history = gate.history("BTC_USDT").unwrap();
    assert!(history.contains(&n(100)));
    assert!(!history.contains(&n(90)));
}

#[test]
fn continuing_update_changes_the_book() {
    let mut gate = live();
    let news = update(10, 13, &[(100, 0), (101, 2), (99, 3), (99, 4)]);
    assert!(matches!(gate.handle_update("BTC_USDT", news), Ok(Step::Done)));
    assert_eq!(id(&gate), 13);
    assert_eq!(bids(&gate), pairs(&[(99, 4), (101, 2)]));
}

#[test]
fn gap_empties_the_book() {
    for (first, last) in [(13, 14), (9, 11)] {
        let mut gate = live();
        let step = gate.handle_update("BTC_USDT", update(first, last, &[(1, 1)]));
        assert!(matches!(step, Ok(Step::Done)));
        assert_eq!(id(&gate), 0);
        assert_eq!(bids(&gate), vec![]);
        assert!(gate.history("BTC_USDT").unwrap().contains(&n(100)));
    }
}

#[test]
fn failed_fetch_starts_over() {
    let mut gate = watching(MarketType::Future);
    let fetch = task(gate.handle_update("BTC_USDT", update(8, 9, &[])).unwrap());
    assert_eq!(id(&gate), 1);
    assert!(matches!(gate.handle_snapshot(fetch, None), Step::Done));
    assert_eq!(id(&gate), 0);
    task(gate.handle_update("BTC_USDT", update(10, 11, &[])).unwrap());
}

#[test]
fn attempts_end_after_the_last() {
    let mut gate = watching(MarketType::Future);
    let fetch = task(gate.handle_update("BTC_USDT", update(8, 9, &[])).unwrap());
    // an update that does not continue the snapshot is dropped by the attempt
    gate.handle_update("BTC_USDT", update(30, 31, &[])).unwrap();
    let mut step = gate.handle_snapshot(fetch, Some(snapshot(10, &[])));
    let mut pauses = 0;
    while let Step::Sleep(waiting) = step {
        pauses += 1;
        assert_eq!(waiting.retries, pauses);
        assert_eq!(waiting.snapshot.update_id, 10);
        step = gate.align(waiting);
    }
    assert!(matches!(step, Step::Done));
    assert_eq!(pauses, MAX_RETRIES);
    assert_eq!(id(&gate), 0);
}

#[test]
fn update_during_a_pause_completes_the_book() {
    let mut gate = watching(MarketType::Future);
    let fetch = task(gate.handle_update("BTC_USDT", update(8, 9, &[])).unwrap());
    let step = gate.handle_snapshot(fetch, Some(snapshot(10, &[(100, 5)])));
    let waiting = match step {
        Step::Sleep(waiting) => waiting,
        _ => panic!("there is nothing to align with"),
    };
    gate.handle_update("BTC_USDT", update(5, 6, &[(1, 1)])).unwrap();
    gate.handle_update("BTC_USDT", update(11, 12, &[(2, 2)])).unwrap();
    assert!(matches!(gate.align(waiting), Step::Done));
    assert_eq!(id(&gate), 12);
    assert_eq!(bids(&gate), pairs(&[(2, 2), (100, 5)]));
}

#[test]
fn gap_among_waiting_updates_marks_the_book() {
    let mut gate = watching(MarketType::Future);
    let fetch = task(gate.handle_update("BTC_USDT", update(8, 9, &[])).unwrap());
    gate.handle_update("BTC_USDT", update(11, 12, &[(2, 2)])).unwrap();
    gate.handle_update("BTC_USDT", update(15, 16, &[(3, 3)])).unwrap();
    assert!(matches!(gate.handle_snapshot(fetch, Some(snapshot(10, &[]))), Step::Done));
    assert_eq!(id(&gate), 0);
    assert_eq!(bids(&gate), pairs(&[(2, 2)]));
}

#[test]
fn full_update_sets_a_book_up_without_noting_its_bids() {
    let mut gate = watching(MarketType::Future);
    let whole = OrderBookUpdate { full: true, ..update(1, 20, &[(100, 5), (101, 6)]) };
    assert!(matches!(gate.handle_update("BTC_USDT", whole), Ok(Step::Done)));
    assert_eq!(id(&gate), 20);
    assert_eq!(bids(&gate), pairs(&[(100, 5), (101, 6)]));
    let step = gate.handle_update("BTC_USDT", update(21, 21, &[(102, 1)]));
    match step {
        Ok(Step::BidOutsideHistory(price)) => assert_eq!(price, n(101)),
        _ => panic!("the bids of the full update are not in the history"),
    }
}

#[test]
fn last_possible_id_has_no_successor() {
    let mut gate = live();
    gate.handle_update("BTC_USDT", update(12, u64::MAX, &[])).unwrap();
    assert_eq!(id(&gate), u64::MAX);
    gate.handle_update("BTC_USDT", update(0, u64::MAX, &[])).unwrap();
    assert_eq!(id(&gate), 0);
}

#[test]
fn other_symbols_are_left_alone() {
    let mut gate = live();
    gate.watch("ETH/USDT:USDT");
    task(gate.handle_update("ETH_USDT", update(1, 2, &[])).unwrap());
    assert_eq!(gate.book("ETH_USDT").unwrap().update_id, 1);
    assert_eq!(id(&gate), 11);
    assert!(gate.book("XRP_USDT").is_none());
    assert!(gate.history("XRP_USDT").is_none());
}

#[test]
fn watching_again_gives_a_new_book() {
    let mut gate = watching(MarketType::Future);
    let fetch = task(gate.handle_update("BTC_USDT", update(8, 9, &[])).unwrap());
    gate.watch("BTC/USDT:USDT");
    assert_eq!(id(&gate), 0);
    // the old fetch still ends with the old book
    assert!(matches!(gate.handle_snapshot(fetch, None), Step::Done));
    assert_eq!(id(&gate), 0);
    task(gate.handle_update("BTC_USDT", update(8, 9, &[])).unwrap());
}

#[test]
fn messages_are_followed() {
    let mut gate = live();
    let step = gate.handle_message(&message(12, 12, "[{\"p\":\"98.5\",\"s\":7}]"));
    assert!(matches!(step, Ok(Step::Done)));
    assert_eq!(id(&gate), 12);
    let expected = vec![(Amount::from_parts(985, 1).unwrap(), n(7)), (n(100), n(5))];
    assert_eq!(bids(&gate), expected);
}

#[test]
fn other_messages_are_ignored() {
    let mut gate = live();
    for text in ["not json", "{}", "[]", "{\"event\":\"subscribe\"}", "{\"event\":1}"] {
        assert!(matches!(gate.handle_message(text), Ok(Step::Ignored)));
    }
    assert_eq!(id(&gate), 11);
}

#[test]
fn broken_messages_are_refused() {
    let mut gate = live();
    let cases = [
        ("{\"event\":\"update\"}", MessageError::MissingResult),
        ("{\"event\":\"update\",\"result\":{}}", MessageError::MissingSymbol),
        ("{\"event\":\"update\",\"result\":{\"s\":3}}", MessageError::MissingSymbol),
        ("{\"event\":\"update\",\"result\":{\"s\":\"ETH_USDT\"}}", MessageError::NotSubscribed),
        ("{\"event\":\"update\",\"result\":{\"s\":\"BTC_USDT\"}}", MessageError::MalformedUpdate),
    ];
    for (text, expected) in cases {
        match gate.handle_message(text) {
            Err(error) => assert_eq!(error, expected),
            Ok(_) => panic!("{text} should be refused"),
        }
    }
    assert!(gate.handle_message(&message(12, 12, "[{\"p\":\"1\"}]")).is_err());
    assert_eq!(id(&gate), 11);
    assert!(matches!(
        gate.handle_update("ETH_USDT", update(1, 2, &[])),
        Err(MessageError::NotSubscribed)
    ));
}

#[test]
fn updates_are_read_as_each_market_writes_them() {
    let spot = parse_json(
        "{\"a\":[[\"2\",\"0.5\",\"x\"]],\"b\":[],\"U\":7,\"u\":8,\"full\":true}",
    )
    .unwrap();
    let read = Gate::build_update(&spot, &MarketType::Spot).unwrap();
    assert_eq!(read.asks, vec![(n(2), Amount::from_parts(5, 1).unwrap())]);
    assert_eq!(read.bids, vec![]);
    assert_eq!((read.first_update_id, read.last_update_id, read.full), (7, 8, true));
    assert!(Gate::build_update(&spot, &MarketType::Future).is_none());

    let future = parse_json("{\"a\":[{\"p\":\"2\",\"s\":3,\"x\":1}],\"b\":[[4,\"5\"]],\"U\":7,\"u\":8}")
        .unwrap();
    let read = Gate::build_update(&future, &MarketType::Future).unwrap();
    assert_eq!(read.asks, pairs(&[(2, 3)]));
    assert_eq!(read.bids, pairs(&[(4, 5)]));
    assert!(!read.full);
    assert!(Gate::build_update(&future, &MarketType::Spot).is_none());

    for text in [
        "{\"b\":[],\"U\":7,\"u\":8}",
        "{\"a\":[],\"b\":[],\"u\":8}",
        "{\"a\":[],\"b\":[],\"U\":-7,\"u\":8}",
        "{\"a\":[],\"b\":[],\"U\":7,\"u\":8.5}",
        "{\"a\":[],\"b\":[[\"1\"]],\"U\":7,\"u\":8}",
        "{\"a\":{},\"b\":[],\"U\":7,\"u\":8}",
    ] {
        let json = parse_json(text).unwrap();
        assert!(Gate::build_update(&json, &MarketType::Spot).is_none());
    }
}

#[test]
fn subscription_names_channel_and_symbol() {
    let future = watching(MarketType::Future).subscribe_message("BTC/USDT:USDT", 1_700_000_000);
    assert_eq!(
        future,
        "{\"channel\":\"futures.order_book_update\",\"event\":\"subscribe\",\"payload\":[\"BTC_USDT\",\"100ms\"],\"time\":1700000000}"
    );
    let spot = Gate::new(MarketType::Spot).subscribe_message("A\"B/C", 0);
    assert_eq!(
        spot,
        "{\"channel\":\"spot.order_book_update\",\"event\":\"subscribe\",\"payload\":[\"A\\\"B_C\",\"100ms\"],\"time\":0}"
    );
}

#[test]
fn changes_made_twice_are_made_once() {
    let mut book = snapshot(10, &[(1, 1), (2, 2)]);
    let news = update(11, 12, &[(1, 0), (3, 3), (3, 4), (2, 0), (2, 9)]);
    book.apply_update(&news);
    let once = book.bids.levels();
    assert_eq!(once, pairs(&[(2, 9), (3, 4)]));
    book.apply_update(&news);
    assert_eq!(book.bids.levels(), once);
    assert_eq!(book.update_id, 12);
}

#[test]
fn two_lists_of_changes_are_one() {
    let mut parted = snapshot(10, &[(1, 1), (2, 2)]);
    let mut joined = snapshot(10, &[(1, 1), (2, 2)]);
    parted.apply_update(&update(11, 11, &[(1, 0), (3, 3)]));
    parted.apply_update(&update(12, 12, &[(3, 0), (1, 7)]));
    joined.apply_update(&update(11, 12, &[(1, 0), (3, 3), (3, 0), (1, 7)]));
    assert_eq!(parted.bids.levels(), pairs(&[(1, 7), (2, 2)]));
    assert_eq!(joined.bids.levels(), parted.bids.levels());
    assert_eq!(joined.update_id, parted.update_id);
}

#[test]
fn changes_told_again_do_no_harm() {
    // under the ids 1 to 6
    let changes = [(5, 1), (6, 1), (5, 0), (7, 2), (6, 3), (7, 0)];
    let mut whole = OrderBook::default();
    whole.apply_update(&update(1, 6, &changes));
    assert_eq!(whole.bids.levels(), pairs(&[(6, 3)]));
    for at in 2..6 {
        for first in 1..at + 2 {
            let mut gate = watching(MarketType::Future);
            let fetch = task(gate.handle_update("BTC_USDT", update(1, 1, &[])).unwrap());
            let told = &changes[first - 1..];
            gate.handle_update("BTC_USDT", update(first as u64, 6, told)).unwrap();
            let mut start = OrderBook::default();
            start.apply_update(&update(1, at as u64, &changes[..at]));
            assert!(matches!(gate.handle_snapshot(fetch, Some(start)), Step::Done));
            assert_eq!(bids(&gate), whole.bids.levels());
            assert_eq!(id(&gate), 6);
        }
    }
}

#[test]
fn every_bid_stays_noted() {
    let mut gate = live();
    let news = [
        update(12, 12, &[(101, 1), (102, 0)]),
        update(13, 13, &[(100, 0), (103, 4), (103, 0)]),
        update(14, 15, &[(99, 2)]),
    ];
    for update in news {
        assert!(matches!(gate.handle_update("BTC_USDT", update), Ok(Step::Done)));
        let history = gate.history("BTC_USDT").unwrap();
        assert!(bids(&gate).iter().all(|(price, _)| history.contains(price)));
    }
    assert_eq!(bids(&gate), pairs(&[(99, 2), (101, 1)]));
}

#[test]
fn bid_without_quantity_in_a_snapshot_is_not_noted() {
    let mut gate = watching(MarketType::Future);
    let fetch = task(gate.handle_update("BTC_USDT", update(8, 9, &[])).unwrap());
    gate.handle_update("BTC_USDT", update(11, 11, &[])).unwrap();
    gate.handle_snapshot(fetch, Some(snapshot(10, &[(100, 0)])));
    assert_eq!(bids(&gate), pairs(&[(100, 0)]));
    let step = gate.handle_update("BTC_USDT", update(12, 12, &[]));
    assert!(matches!(step, Ok(Step::BidOutsideHistory(price)) if price == n(100)));
}
