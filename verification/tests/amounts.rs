use gatebook::amount::Amount;
use gatebook::decimal::{amount_from_json, parse_amount};
use gatebook::json::{parse_json, Json};
use gatebook::ladder::Ladder;

fn amount(mantissa: i128, scale: u32) -> Amount {
    Amount::from_parts(mantissa, scale).unwrap()
}

#[test]
fn amount_has_whole_units_and_parts() {
    assert_eq!(
        amount(1_234, 2),
        Amount { units: 12, parts: 3_400_000_000_000_000_000_000_000_000 }
    );
    assert_eq!(
        amount(-1_234, 2),
        Amount { units: -13, parts: 6_600_000_000_000_000_000_000_000_000 }
    );
    assert_eq!(amount(1, 28), Amount { units: 0, parts: 1 });
    assert_eq!(amount(0, 5), Amount::zero());
    assert_eq!(
        amount(i128::MIN, 0),
        Amount { units: i128::MIN, parts: 0 }
    );
    assert_eq!(Amount::from_parts(1, 29), None);
}

#[test]
fn trailing_zeros_make_no_difference() {
    assert_eq!(amount(15, 1), amount(1_500, 3));
    assert!(amount(0, 28).is_zero());
    assert!(!amount(1, 28).is_zero());
}

#[test]
fn amounts_are_ordered_as_numbers() {
    assert!(amount(5, 1).less_than(&amount(51, 2)));
    assert!(amount(-5, 1).less_than(&amount(-49, 2)));
    assert!(amount(-1, 28).less_than(&amount(0, 0)));
    assert!(!amount(2, 0).less_than(&amount(20, 1)));
    assert!(amount(99, 1).less_than(&amount(10, 0)));
}

#[test]
fn text_spells_amounts() {
    assert_eq!(parse_amount("12.34"), Some(amount(1_234, 2)));
    assert_eq!(parse_amount("-0.5"), Some(amount(-5, 1)));
    assert_eq!(parse_amount("0.000"), Some(Amount::zero()));
    assert_eq!(parse_amount("1.5e3"), Some(amount(1_500, 0)));
    assert_eq!(parse_amount("abc"), None);
    assert_eq!(parse_amount(""), None);
}

#[test]
fn json_strings_and_numbers_are_amounts() {
    let read = |text: &str| amount_from_json(&parse_json(text).unwrap());
    assert_eq!(read("\"97.1\""), Some(amount(971, 1)));
    assert_eq!(read("\"2.5e-3\""), Some(amount(25, 4)));
    assert_eq!(read("2245"), Some(amount(2_245, 0)));
    assert_eq!(read("-7"), Some(amount(-7, 0)));
    assert_eq!(read("0.25"), Some(amount(25, 2)));
    assert_eq!(read("true"), None);
    assert_eq!(read("null"), None);
    assert_eq!(read("[1]"), None);
    assert_eq!(read("\"x\""), None);
}

#[test]
fn json_is_read_whole() {
    let json = parse_json("{\"a\": [1, \"two\", null, true, -3, 4.5], \"b\": {\"c\": {}}}").unwrap();
    let items = json.get("a").unwrap();
    assert_eq!(items.count(), Some(6));
    assert_eq!(items.at(0).unwrap().as_whole(), Some(1));
    assert_eq!(items.at(1).unwrap().as_text(), Some("two"));
    assert!(matches!(items.at(2), Some(Json::Null)));
    assert_eq!(items.at(3).unwrap().as_truth(), Some(true));
    assert_eq!(items.at(4).unwrap().as_whole(), None);
    assert_eq!(items.at(5).unwrap().as_whole(), None);
    assert!(items.at(6).is_none());
    assert!(json.get("b").unwrap().get("c").unwrap().get("d").is_none());
    assert!(items.get("a").is_none());
    assert_eq!(json.count(), None);
    assert!(parse_json("{\"a\": ").is_err());
}

#[test]
fn later_member_counts() {
    let written = Json::Object(vec![
        ("k".to_string(), Json::Bool(false)),
        ("k".to_string(), Json::Bool(true)),
    ]);
    assert_eq!(written.get("k").unwrap().as_truth(), Some(true));
    let read = parse_json("{\"k\": 1, \"k\": 2}").unwrap();
    assert_eq!(read.get("k").unwrap().as_whole(), Some(2));
}

#[test]
fn ladder_keeps_prices_in_order() {
    let mut ladder: Ladder<Amount> = Ladder::new();
    ladder.insert(amount(3, 0), amount(30, 0));
    ladder.insert(amount(1, 0), amount(10, 0));
    ladder.insert(amount(2, 0), amount(20, 0));
    ladder.insert(amount(10, 1), amount(11, 0));
    assert_eq!(
        ladder.levels(),
        vec![
            (amount(1, 0), amount(11, 0)),
            (amount(2, 0), amount(20, 0)),
            (amount(3, 0), amount(30, 0)),
        ]
    );
    ladder.remove(&amount(2, 0));
    ladder.remove(&amount(7, 0));
    assert!(!ladder.contains(&amount(2, 0)));
    assert_eq!(ladder.get(&amount(3, 0)), Some(&amount(30, 0)));
    assert_eq!(ladder.get(&amount(7, 0)), None);
    ladder.remove(&amount(1, 0));
    ladder.remove(&amount(3, 0));
    assert_eq!(ladder.levels(), vec![]);
}
