//! The two ways to write a symbol: the exchange's `BTC_USDT`, and the client's
//! `BTC/USDT` or, on the futures market, `BTC/USDT:USDT`.

use vstd::prelude::*;
use vstd::string::*;

use crate::market::MarketType;
use crate::text::{after_mark, before_mark, cut, split_at_mark};

verus! {

/// The client's symbol for a base and a quote currency.
pub open spec fn symbol_of(market: MarketType, base: Seq<char>, quote: Seq<char>) -> Seq<char> {
    match market {
        MarketType::Spot => base + "/"@ + quote,
        MarketType::Future => base + "/"@ + quote + ":"@ + quote,
    }
}

/// The exchange's symbol for the client's: what stands before the first colon,
/// with an underscore for the first slash.
pub open spec fn normalized(symbol: Seq<char>) -> Seq<char> {
    let pair = before_mark(symbol, ':');
    if cut(pair, '/') < pair.len() {
        before_mark(pair, '/') + "_"@ + after_mark(pair, '/')
    } else {
        pair
    }
}

/// Some character of the text is `mark`.
pub open spec fn occurs(text: Seq<char>, mark: char) -> bool {
    exists|i: int| 0 <= i < text.len() && #[trigger] text[i] == mark
}

/// Writes the client's symbol for a base and a quote currency.
pub fn symbol_name(market: &MarketType, base: &str, quote: &str) -> (symbol: String)
    ensures
        symbol@ == symbol_of(*market, base@, quote@),
{
    let pair: String = base.to_owned().concat("/").concat(quote);
    match market {
        MarketType::Spot => pair,
        MarketType::Future => pair.concat(":").concat(quote),
    }
}

/// Writes the exchange's symbol for the client's.
pub fn normalize_symbol(symbol: &str) -> (name: String)
    ensures
        name@ == normalized(symbol@),
{
    let (pair, _) = split_at_mark(symbol, ':');
    let (base, quote) = split_at_mark(pair, '/');
    proof {
        lemma_cut_within(symbol@, ':');
        lemma_cut_within(pair@, '/');
    }
    if base.unicode_len() < pair.unicode_len() {
        base.to_owned().concat("_").concat(quote)
    } else {
        proof {
            assert(base@ =~= pair@);
        }
        base.to_owned()
    }
}

/// The place of a mark is within the text or its end.
proof fn lemma_cut_within(text: Seq<char>, mark: char)
    ensures
        cut(text, mark) <= text.len(),
    decreases text.len(),
{
    if text.len() > 0 && text[0] != mark {
        lemma_cut_within(text.drop_first(), mark);
    }
}

} // verus!
