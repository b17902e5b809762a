//! The assets that the exchange trades.

use vstd::prelude::*;
use vstd::hash_map::StringHashMap;
use vstd::string::*;

use crate::json::{error_text, json_complaint, parse_json, parsed_json, Json, JsonView};
use crate::market::MarketType;
use crate::symbol::{symbol_name, symbol_of};
use crate::text::{
    after_mark, before_mark, read_utf8, same_text, split_at_mark, utf8_complaint,
};

verus! {

/// Why the assets could not be had.
#[derive(Debug)]
pub enum ExchangeError {
    ApiError(String),
    JsonError(serde_json::Error),
}

/// A pair of currencies that can be traded.
#[derive(Debug)]
pub struct Asset {
    pub symbol: String,
    pub base: String,
    pub quote: String,
    pub market: MarketType,
    pub exchange: String,
}

/// What an asset says.
pub struct AssetView {
    pub symbol: Seq<char>,
    pub base: Seq<char>,
    pub quote: Seq<char>,
    pub market: MarketType,
    pub exchange: Seq<char>,
}

impl View for Asset {
    type V = AssetView;

    open spec fn view(&self) -> AssetView {
        AssetView {
            symbol: self.symbol@,
            base: self.base@,
            quote: self.quote@,
            market: self.market,
            exchange: self.exchange@,
        }
    }
}

impl Clone for Asset {
    fn clone(&self) -> (asset: Asset)
        ensures
            asset@ == self@,
    {
        Asset {
            symbol: self.symbol.clone(),
            base: self.base.clone(),
            quote: self.quote.clone(),
            market: self.market,
            exchange: self.exchange.clone(),
        }
    }
}

/// What a list of assets says.
pub open spec fn asset_views(assets: Seq<Asset>) -> Seq<AssetView> {
    assets.map_values(|asset: Asset| asset@)
}

/// The exchange says that this entry can be traded now.
pub open spec fn tradable(entry: JsonView, market: MarketType) -> bool {
    match market {
        MarketType::Spot => entry.field("trade_status"@).text() == Some("tradable"@),
        MarketType::Future => entry.field("status"@).text() == Some("trading"@),
    }
}

/// The exchange's name of an entry, empty where it has none.
pub open spec fn entry_name(entry: JsonView, market: MarketType) -> Seq<char> {
    let value = match market {
        MarketType::Spot => entry.field("id"@),
        MarketType::Future => entry.field("name"@),
    };
    match value.text() {
        Some(name) => name,
        None => Seq::empty(),
    }
}

/// The asset that an entry of the exchange's list describes.
pub open spec fn asset_of(entry: JsonView, market: MarketType) -> AssetView {
    let name = entry_name(entry, market);
    let base = before_mark(name, '_');
    let quote = after_mark(name, '_');
    AssetView { symbol: symbol_of(market, base, quote), base, quote, market, exchange: "Gate"@ }
}

/// The assets of those entries that can be traded, in their order.
pub open spec fn assets_of(entries: Seq<JsonView>, market: MarketType) -> Seq<AssetView>
    decreases entries.len(),
{
    if entries.len() == 0 {
        Seq::empty()
    } else {
        let before = assets_of(entries.drop_last(), market);
        if tradable(entries.last(), market) {
            before.push(asset_of(entries.last(), market))
        } else {
            before
        }
    }
}

/// The assets of the exchange's list; none where it is no list.
pub open spec fn listed_assets(list: JsonView, market: MarketType) -> Seq<AssetView> {
    match list.items() {
        Some(entries) => assets_of(entries, market),
        None => Seq::empty(),
    }
}

/// The assets in the exchange's answer; none where it cannot be read.
pub open spec fn answered(response: Seq<u8>, market: MarketType) -> Option<Seq<AssetView>> {
    if vstd::utf8::valid_utf8(response) {
        match parsed_json(vstd::utf8::decode_utf8(response)) {
            Some(list) => Some(listed_assets(list, market)),
            None => None,
        }
    } else {
        None
    }
}

/// Whether a member of an object is this text.
fn member_is(entry: &Json, name: &str, text: &str) -> (yes: bool)
    ensures
        yes == (entry@.field(name@).text() == Some(text@)),
{
    match entry.get(name) {
        Some(value) => match value.as_text() {
            Some(found) => same_text(found, text),
            None => false,
        },
        None => false,
    }
}

/// The text of a member of an object, empty where it has none.
fn member_text<'a>(entry: &'a Json, name: &str) -> (text: &'a str)
    ensures
        text@ == match entry@.field(name@).text() {
            Some(found) => found,
            None => Seq::empty(),
        },
{
    proof {
        reveal_strlit("");
        assert(""@ =~= Seq::empty());
    }
    match entry.get(name) {
        Some(value) => match value.as_text() {
            Some(found) => found,
            None => "",
        },
        None => "",
    }
}

/// Reads one entry of the exchange's list.
pub fn read_asset(entry: &Json, market: &MarketType) -> (asset: Option<Asset>)
    ensures
        match asset {
            Some(found) => tradable(entry@, *market) && found@ == asset_of(entry@, *market),
            None => !tradable(entry@, *market),
        },
{
    let open: bool = match market {
        MarketType::Spot => member_is(entry, "trade_status", "tradable"),
        MarketType::Future => member_is(entry, "status", "trading"),
    };
    if !open {
        return None;
    }
    let name: &str = match market {
        MarketType::Spot => member_text(entry, "id"),
        MarketType::Future => member_text(entry, "name"),
    };
    let (base, quote) = split_at_mark(name, '_');
    Some(
        Asset {
            symbol: symbol_name(market, base, quote),
            base: base.to_owned(),
            quote: quote.to_owned(),
            market: *market,
            exchange: "Gate".to_owned(),
        },
    )
}

/// Reads the exchange's list of assets.
pub fn read_assets(list: &Json, market: &MarketType) -> (assets: Vec<Asset>)
    ensures
        asset_views(assets@) == listed_assets(list@, *market),
{
    let mut assets: Vec<Asset> = Vec::new();
    let count: usize = match list.count() {
        Some(count) => count,
        None => {
            assert(asset_views(assets@) =~= Seq::empty());
            return assets;
        },
    };
    let ghost entries = list@->Array_0;
    let mut i: usize = 0;
    assert(asset_views(assets@) =~= assets_of(entries.take(0), *market));
    while i < count
        invariant
            i <= count,
            list@ == JsonView::Array(entries),
            count == entries.len(),
            asset_views(assets@) == assets_of(entries.take(i as int), *market),
        decreases count - i,
    {
        let ghost before = assets@;
        proof {
            assert(entries.take(i + 1).drop_last() =~= entries.take(i as int));
            assert(entries.take(i + 1).last() == entries[i as int]);
        }
        if let Some(entry) = list.at(i) {
            if let Some(asset) = read_asset(entry, market) {
                let ghost news = asset@;
                assets.push(asset);
                assert(asset_views(assets@) =~= asset_views(before).push(news));
            }
        }
        i = i + 1;
    }
    assert(entries.take(i as int) =~= entries);
    assets
}

/// Reads the exchange's answer to the request for its assets.
pub fn assets_from_response(response: &[u8], market: &MarketType) -> (assets: Result<
    Vec<Asset>,
    ExchangeError,
>)
    ensures
        ({
            let text = vstd::utf8::decode_utf8(response@);
            match assets {
                Ok(found) => answered(response@, *market) == Some(asset_views(found@)),
                Err(ExchangeError::ApiError(message)) => !vstd::utf8::valid_utf8(response@)
                    && message@ == "Resposta inválida: "@ + utf8_complaint(response@),
                Err(ExchangeError::JsonError(error)) => vstd::utf8::valid_utf8(response@)
                    && parsed_json(text) is None && error_text(error) == json_complaint(text),
            }
        }),
{
    let text: &str = match read_utf8(response) {
        Ok(text) => text,
        Err(complaint) => {
            return Err(
                ExchangeError::ApiError("Resposta inválida: ".to_owned().concat(complaint.as_str())),
            );
        },
    };
    match parse_json(text) {
        Ok(list) => Ok(read_assets(&list, market)),
        Err(error) => Err(ExchangeError::JsonError(error)),
    }
}

/// The error for a request that failed.
pub fn request_error(reason: &str) -> (error: ExchangeError)
    ensures
        error matches ExchangeError::ApiError(message) && message@ == "Erro ao buscar ativos: "@
            + reason@,
{
    ExchangeError::ApiError("Erro ao buscar ativos: ".to_owned().concat(reason))
}

/// The error for an answer that could not be received.
pub fn body_error(reason: &str) -> (error: ExchangeError)
    ensures
        error matches ExchangeError::ApiError(message) && message@ == "Corpo inválido: "@ + reason@,
{
    ExchangeError::ApiError("Corpo inválido: ".to_owned().concat(reason))
}

/// The assets by their symbols; of two with one symbol the later counts.
pub open spec fn by_symbol(assets: Seq<AssetView>) -> Map<Seq<char>, AssetView>
    decreases assets.len(),
{
    if assets.len() == 0 {
        Map::empty()
    } else {
        by_symbol(assets.drop_last()).insert(assets.last().symbol, assets.last())
    }
}

/// No two assets have one symbol.
pub open spec fn distinct_symbols(assets: Seq<AssetView>) -> bool {
    forall|i: int, j: int|
        0 <= i < j < assets.len() ==> (#[trigger] assets[i]).symbol != (
        #[trigger] assets[j]).symbol
}

/// Some asset has this symbol.
pub open spec fn lists_symbol(assets: Seq<AssetView>, symbol: Seq<char>) -> bool {
    exists|i: int| 0 <= i < assets.len() && (#[trigger] assets[i]).symbol == symbol
}

/// A symbol is a key exactly when some asset has it.
pub proof fn lemma_listed_symbols(assets: Seq<AssetView>, symbol: Seq<char>)
    ensures
        by_symbol(assets).contains_key(symbol) == lists_symbol(assets, symbol),
    decreases assets.len(),
{
    if assets.len() > 0 {
        let rest = assets.drop_last();
        lemma_listed_symbols(rest, symbol);
        if lists_symbol(rest, symbol) {
            let i = choose|i: int| 0 <= i < rest.len() && (#[trigger] rest[i]).symbol == symbol;
            assert(assets[i] == rest[i]);
        } else if lists_symbol(assets, symbol) {
            let i = choose|i: int| 0 <= i < assets.len() && (#[trigger] assets[i]).symbol == symbol;
            if i < rest.len() {
                assert(rest[i] == assets[i]);
            }
        }
        if symbol == assets.last().symbol {
            assert(assets[assets.len() - 1].symbol == symbol);
        }
    }
}

/// Where no two assets have one symbol, each is the one under its symbol.
proof fn lemma_by_symbol(assets: Seq<AssetView>)
    requires
        distinct_symbols(assets),
    ensures
        forall|i: int|
            0 <= i < assets.len() ==> by_symbol(assets).contains_key((#[trigger] assets[i]).symbol)
                && by_symbol(assets)[assets[i].symbol] == assets[i],
    decreases assets.len(),
{
    if assets.len() > 0 {
        let rest = assets.drop_last();
        assert forall|i: int, j: int| 0 <= i < j < rest.len() implies (#[trigger] rest[i]).symbol
            != (#[trigger] rest[j]).symbol by {
            assert(rest[i] == assets[i] && rest[j] == assets[j]);
        }
        lemma_by_symbol(rest);
        assert forall|i: int| 0 <= i < assets.len() implies by_symbol(assets).contains_key(
            (#[trigger] assets[i]).symbol,
        ) && by_symbol(assets)[assets[i].symbol] == assets[i] by {
            if i < assets.len() - 1 {
                assert(rest[i] == assets[i]);
                assert(assets[i].symbol != assets[assets.len() - 1].symbol);
            }
        }
    }
}

/// Assets, no two with one symbol.
#[derive(Debug)]
pub struct AssetMap {
    assets: Vec<Asset>,
}

impl View for AssetMap {
    type V = Map<Seq<char>, AssetView>;

    closed spec fn view(&self) -> Map<Seq<char>, AssetView> {
        by_symbol(asset_views(self.assets@))
    }
}

impl AssetMap {
    /// No assets.
    pub fn new() -> (map: AssetMap)
        ensures
            map@ == Map::<Seq<char>, AssetView>::empty(),
    {
        AssetMap { assets: Vec::new() }
    }

    /// Collects assets by their symbols.
    pub fn from_assets(assets: Vec<Asset>) -> (map: AssetMap)
        ensures
            map@ == by_symbol(asset_views(assets@)),
    {
        let ghost all = assets@;
        let ghost views = asset_views(all);
        let mut kept: Vec<Asset> = Vec::new();
        let mut places: StringHashMap<usize> = StringHashMap::new();
        proof {
            assert(by_symbol(asset_views(kept@)) =~= by_symbol(views.take(0)));
        }
        for asset in rest: assets
            invariant
                rest.seq() == all,
                views == asset_views(all),
                distinct_symbols(asset_views(kept@)),
                by_symbol(asset_views(kept@)) == by_symbol(views.take(rest.index())),
                forall|symbol: Seq<char>| #[trigger]
                    places@.contains_key(symbol) ==> places@[symbol] < kept@.len()
                        && kept@[places@[symbol] as int].symbol@ == symbol,
                forall|i: int|
                    0 <= i < kept@.len() ==> places@.contains_key(
                        (#[trigger] kept@[i]).symbol@,
                    ),
        {
            let ghost before = kept@;
            let ghost news = asset@;
            proof {
                let done = views.take(rest.index() + 1);
                assert(done.drop_last() =~= views.take(rest.index()));
                assert(done.last() == news);
                lemma_by_symbol(asset_views(before));
            }
            let known: Option<usize> = match places.get(asset.symbol.as_str()) {
                Some(place) => Some(*place),
                None => None,
            };
            match known {
                Some(place) => {
                    kept.set(place, asset);
                    proof {
                        let old_views = asset_views(before);
                        let new_views = asset_views(kept@);
                        assert(new_views =~= old_views.update(place as int, news));
                        assert(distinct_symbols(new_views)) by {
                            assert forall|i: int, j: int| 0 <= i < j < new_views.len() implies (
                            #[trigger] new_views[i]).symbol != (#[trigger] new_views[j]).symbol by {
                                assert(new_views[i].symbol == old_views[i].symbol);
                                assert(new_views[j].symbol == old_views[j].symbol);
                            }
                        }
                        lemma_by_symbol(new_views);
                        assert forall|symbol: Seq<char>|
                            lists_symbol(new_views, symbol) == #[trigger] lists_symbol(
                                old_views,
                                symbol,
                            ) by {
                            if lists_symbol(old_views, symbol) {
                                let i = choose|i: int|
                                    0 <= i < old_views.len() && (#[trigger] old_views[i]).symbol
                                        == symbol;
                                assert(new_views[i].symbol == symbol);
                            }
                            if lists_symbol(new_views, symbol) {
                                let i = choose|i: int|
                                    0 <= i < new_views.len() && (#[trigger] new_views[i]).symbol
                                        == symbol;
                                assert(old_views[i].symbol == symbol);
                            }
                        }
                        assert(new_views[place as int] == news);
                        assert forall|symbol: Seq<char>|
                            by_symbol(new_views).contains_key(symbol) == by_symbol(
                                old_views,
                            ).contains_key(symbol) by {
                            lemma_listed_symbols(new_views, symbol);
                            lemma_listed_symbols(old_views, symbol);
                            assert(lists_symbol(new_views, symbol) == lists_symbol(
                                old_views,
                                symbol,
                            ));
                        }
                        assert forall|symbol: Seq<char>| #[trigger]
                            by_symbol(new_views).contains_key(symbol) implies by_symbol(
                            new_views,
                        )[symbol] == by_symbol(old_views).insert(news.symbol, news)[symbol] by {
                            lemma_listed_symbols(new_views, symbol);
                            let i = choose|i: int|
                                0 <= i < new_views.len() && (#[trigger] new_views[i]).symbol
                                    == symbol;
                            assert(new_views[i].symbol == symbol);
                            if i != place {
                                assert(old_views[i] == new_views[i]);
                            }
                        }
                        assert(old_views[place as int].symbol == news.symbol);
                        assert(by_symbol(new_views) =~= by_symbol(old_views).insert(
                            news.symbol,
                            news,
                        ));
                    }
                },
                None => {
                    places.insert(asset.symbol.clone(), kept.len());
                    kept.push(asset);
                    proof {
                        assert(asset_views(kept@).drop_last() =~= asset_views(before));
                        assert(asset_views(kept@) =~= asset_views(before).push(news));
                        assert forall|i: int| 0 <= i < before.len() implies (
                        #[trigger] asset_views(before)[i]).symbol != news.symbol by {
                            assert(before[i].symbol@ == asset_views(before)[i].symbol);
                        }
                        assert(distinct_symbols(asset_views(kept@)));
                    }
                },
            }
        }
        assert(views.take(views.len() as int) =~= views);
        AssetMap { assets: kept }
    }

    /// The assets, each once, in no promised order.
    pub fn assets(&self) -> (assets: &Vec<Asset>)
        ensures
            by_symbol(asset_views(assets@)) == self@,
            distinct_symbols(asset_views(assets@)),
    {
        proof {
            use_type_invariant(self);
        }
        &self.assets
    }

    /// The asset with this symbol.
    pub fn get(&self, symbol: &str) -> (asset: Option<&Asset>)
        ensures
            match asset {
                Some(found) => self@.contains_key(symbol@) && found@ == self@[symbol@],
                None => !self@.contains_key(symbol@),
            },
    {
        proof {
            use_type_invariant(self);
            lemma_by_symbol(asset_views(self.assets@));
        }
        let ghost views = asset_views(self.assets@);
        let mut i: usize = 0;
        while i < self.assets.len()
            invariant
                i <= self.assets@.len(),
                views == asset_views(self.assets@),
                self@ == by_symbol(views),
                forall|j: int|
                    0 <= j < views.len() ==> self@.contains_key((#[trigger] views[j]).symbol)
                        && self@[views[j].symbol] == views[j],
                forall|j: int| 0 <= j < i ==> (#[trigger] views[j]).symbol != symbol@,
            decreases self.assets@.len() - i,
        {
            assert(views[i as int] == self.assets@[i as int]@);
            if same_text(self.assets[i].symbol.as_str(), symbol) {
                return Some(&self.assets[i]);
            }
            i = i + 1;
        }
        proof {
            lemma_listed_symbols(views, symbol@);
        }
        None
    }

    #[verifier::type_invariant]
    spec fn distinct(self) -> bool {
        distinct_symbols(asset_views(self.assets@))
    }
}

impl Clone for AssetMap {
    fn clone(&self) -> (map: AssetMap)
        ensures
            map@ == self@,
    {
        proof {
            use_type_invariant(self);
        }
        let mut assets: Vec<Asset> = Vec::new();
        let mut i: usize = 0;
        while i < self.assets.len()
            invariant
                i <= self.assets@.len(),
                asset_views(assets@) == asset_views(self.assets@).take(i as int),
            decreases self.assets@.len() - i,
        {
            let ghost before = assets@;
            assets.push(self.assets[i].clone());
            assert(asset_views(assets@) =~= asset_views(before).push(self.assets@[i as int]@));
            assert(asset_views(assets@) =~= asset_views(self.assets@).take(i + 1));
            i = i + 1;
        }
        assert(asset_views(assets@) =~= asset_views(self.assets@));
        AssetMap { assets }
    }
}

/// The assets of both markets.
#[derive(Debug)]
pub struct Assets {
    pub spot: AssetMap,
    pub future: AssetMap,
}

/// The assets of both markets by their symbols.
pub struct AssetsView {
    pub spot: Map<Seq<char>, AssetView>,
    pub future: Map<Seq<char>, AssetView>,
}

impl View for Assets {
    type V = AssetsView;

    open spec fn view(&self) -> AssetsView {
        AssetsView { spot: self.spot@, future: self.future@ }
    }
}

/// The assets that are kept after a fetch: those that came, where both markets
/// answered, and otherwise those that were kept before.
pub open spec fn kept_assets(
    before: AssetsView,
    spot: Option<Seq<AssetView>>,
    future: Option<Seq<AssetView>>,
) -> AssetsView {
    match (spot, future) {
        (Some(spot), Some(future)) => AssetsView {
            spot: by_symbol(spot),
            future: by_symbol(future),
        },
        _ => before,
    }
}

/// What came of a market's assets, without the error.
pub open spec fn fetched(assets: Result<Vec<Asset>, ExchangeError>) -> Option<Seq<AssetView>> {
    match assets {
        Ok(found) => Some(asset_views(found@)),
        Err(_) => None,
    }
}

impl Assets {
    /// No assets.
    pub fn new() -> (assets: Assets)
        ensures
            assets@ == (AssetsView { spot: Map::empty(), future: Map::empty() }),
    {
        Assets { spot: AssetMap::new(), future: AssetMap::new() }
    }

    /// Keeps what came of the two markets in place of what was kept before, and
    /// gives it. After an error, the spot market's first, all stays as it was.
    pub fn replace(
        &mut self,
        spot: Result<Vec<Asset>, ExchangeError>,
        future: Result<Vec<Asset>, ExchangeError>,
    ) -> (assets: Result<Assets, ExchangeError>)
        ensures
            final(self)@ == kept_assets(old(self)@, fetched(spot), fetched(future)),
            match (spot, future) {
                (Err(error), _) => assets == Err::<Assets, _>(error),
                (Ok(_), Err(error)) => assets == Err::<Assets, _>(error),
                (Ok(_), Ok(_)) => assets matches Ok(found) && found@ == final(self)@,
            },
    {
        match assemble_assets(spot, future) {
            Ok(assets) => {
                *self = assets;
                Ok(self.clone())
            },
            Err(error) => Err(error),
        }
    }
}

impl Clone for Assets {
    fn clone(&self) -> (assets: Assets)
        ensures
            assets@ == self@,
    {
        Assets { spot: self.spot.clone(), future: self.future.clone() }
    }
}

/// Puts what came of the two markets together. The spot market's error comes
/// before that of the futures market.
pub fn assemble_assets(
    spot: Result<Vec<Asset>, ExchangeError>,
    future: Result<Vec<Asset>, ExchangeError>,
) -> (assets: Result<Assets, ExchangeError>)
    ensures
        match (spot, future) {
            (Err(error), _) => assets == Err::<Assets, _>(error),
            (Ok(_), Err(error)) => assets == Err::<Assets, _>(error),
            (Ok(spot), Ok(future)) => assets matches Ok(found) && found@ == (AssetsView {
                spot: by_symbol(asset_views(spot@)),
                future: by_symbol(asset_views(future@)),
            }),
        },
{
    match (spot, future) {
        (Err(error), _) => Err(error),
        (Ok(_), Err(error)) => Err(error),
        (Ok(spot), Ok(future)) => Ok(
            Assets { spot: AssetMap::from_assets(spot), future: AssetMap::from_assets(future) },
        ),
    }
}

} // verus!
