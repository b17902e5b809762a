//! Amounts out of text.

use vstd::prelude::*;

use crate::amount::{amount_of, Amount, MAX_SCALE};
use crate::json::{deserialized_decimal, text_value, value_decimal, Json, JsonView};

verus! {

/// The mantissa and the scale of what `rust_decimal` parses out of a text, where
/// it can parse it.
pub uninterp spec fn parsed_decimal(text: Seq<char>) -> Option<(i128, u32)>;

/// The amount with these parts.
pub open spec fn amount_of_parts(parts: Option<(i128, u32)>) -> Option<Amount> {
    match parts {
        Some((mantissa, scale)) => amount_of(mantissa, scale),
        None => None,
    }
}

/// The amount that a JSON value stands for: a string or a number can be one.
pub open spec fn json_amount(value: JsonView) -> Option<Amount> {
    amount_of_parts(value.decimal())
}

/// A JSON value spells an amount: it is a string that a decimal can be made of, or
/// a number that is a decimal with a scale that amounts have.
pub open spec fn spells_amount(value: JsonView) -> bool {
    match value {
        JsonView::Text(text) => deserialized_decimal(text) is Some,
        JsonView::Number { decimal: Some((_, scale)), .. } => scale <= MAX_SCALE,
        _ => false,
    }
}

/// Calls `str::parse` for a `rust_decimal::Decimal`, and takes `mantissa` and
/// `scale` of what comes. Claimed: the outcome depends on the text alone, and the
/// scale is at most `Decimal::MAX_SCALE`, which is 28.
#[verifier::external_body]
fn parse_decimal(text: &str) -> (parts: Option<(i128, u32)>)
    ensures
        parts == parsed_decimal(text@),
        parts matches Some((_, scale)) ==> scale <= MAX_SCALE,
{
    text.parse::<rust_decimal::Decimal>().ok().map(
        |decimal| (decimal.mantissa(), decimal.scale()),
    )
}

/// The amount with these parts.
pub fn amount_from_parts(parts: Option<(i128, u32)>) -> (amount: Option<Amount>)
    ensures
        amount == amount_of_parts(parts),
{
    match parts {
        Some((mantissa, scale)) => Amount::from_parts(mantissa, scale),
        None => None,
    }
}

/// The amount that a text spells.
pub fn parse_amount(text: &str) -> (amount: Option<Amount>)
    ensures
        amount == amount_of_parts(parsed_decimal(text@)),
        amount is Some == parsed_decimal(text@) is Some,
{
    amount_from_parts(parse_decimal(text))
}

/// The amount that a JSON value stands for.
pub fn amount_from_json(value: &Json) -> (amount: Option<Amount>)
    ensures
        amount == json_amount(value@),
        amount is Some == spells_amount(value@),
{
    match value {
        Json::Text(text) => amount_from_parts(value_decimal(text_value(text.clone()))),
        Json::Number { decimal, .. } => amount_from_parts(*decimal),
        _ => None,
    }
}

} // verus!
