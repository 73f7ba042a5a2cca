//! What the API service answers with, and its registry of markets.

use vstd::prelude::*;
use crate::model::{ActionType, AssetId, MarketId};
use crate::units::UNIT;

verus! {

/// The engine's status as the API reports it.
#[derive(Debug, Clone, Copy, PartialEq, Eq, Structural)]
pub struct Status {
    pub active: bool,
    pub engine_tps: u64,
}

/// The query of a candle request.
#[derive(Debug, Clone)]
pub struct KlineParams {
    pub symbol: String,
    pub interval: String,
    pub limit: i64,
}

/// A request to seed a user's balance of an asset; amounts in units of 10^-8.
#[derive(Debug, Clone)]
pub struct SeedRequest {
    pub user_id: i64,
    pub asset: String,
    pub available: i128,
    pub locked: Option<i128>,
}

/// One candle of the price history: its bucket's start in microseconds since
/// the Unix epoch, and prices and volume in units of 10^-8.
#[derive(Debug, Clone, Copy, PartialEq, Eq, Structural)]
pub struct Kline {
    pub bucket: i64,
    pub open: u64,
    pub high: u64,
    pub low: u64,
    pub close: u64,
    pub volume: u64,
}

/// The status the API reports: active, at 10000 transactions per second.
pub fn get_status() -> (r: Status)
    ensures
        r == (Status { active: true, engine_tps: 10000 }),
{
    Status { active: true, engine_tps: 10000 }
}

/// A market of the registry: its id, assets, smallest order (units of 10^-8)
/// and the queue its orders go to.
#[derive(Debug, Clone, Copy)]
pub struct MarketConfig {
    pub market_id: MarketId,
    pub base_asset: AssetId,
    pub quote_asset: AssetId,
    pub min_order_size: u64,
    pub redis_key: &'static str,
}

/// The markets the registry knows.
pub open spec fn is_configured(id: MarketId) -> bool {
    id == MarketId::BtcUsdt || id == MarketId::EthUsdt
}

impl MarketConfig {
    /// The registry entry of a market: BTC/USDT and ETH/USDT, both with a
    /// smallest order of 1, queued on "trades:btc_usdt" and "trades:eth_usdt".
    pub fn from_id(id: MarketId) -> (r: Self)
        requires
            is_configured(id),
        ensures
            r.market_id == id,
            r.min_order_size == UNIT,
            r.quote_asset == AssetId::Usdt,
            id == MarketId::BtcUsdt ==> r.base_asset == AssetId::Btc && r.redis_key@ == "trades:btc_usdt"@,
            id == MarketId::EthUsdt ==> r.base_asset == AssetId::Eth && r.redis_key@ == "trades:eth_usdt"@,
    {
        match id {
            MarketId::BtcUsdt => Self {
                market_id: MarketId::BtcUsdt,
                base_asset: AssetId::Btc,
                quote_asset: AssetId::Usdt,
                min_order_size: UNIT,
                redis_key: "trades:btc_usdt",
            },
            MarketId::EthUsdt => Self {
                market_id: MarketId::EthUsdt,
                base_asset: AssetId::Eth,
                quote_asset: AssetId::Usdt,
                min_order_size: UNIT,
                redis_key: "trades:eth_usdt",
            },
            MarketId::Unspecified => {
                proof {
                    assert(false);
                }
                Self {
                    market_id: MarketId::Unspecified,
                    base_asset: AssetId::Unspecified,
                    quote_asset: AssetId::Unspecified,
                    min_order_size: 0,
                    redis_key: "",
                }
            },
        }
    }
}

/// The active markets with their registry entries, BTC/USDT first.
pub fn load_markets_from_proto() -> (r: Vec<(MarketId, MarketConfig)>)
    ensures
        r@.len() == 2,
        r@[0].0 == MarketId::BtcUsdt && r@[0].1.market_id == MarketId::BtcUsdt && r@[0].1.base_asset
            == AssetId::Btc && r@[0].1.redis_key@ == "trades:btc_usdt"@,
        r@[1].0 == MarketId::EthUsdt && r@[1].1.market_id == MarketId::EthUsdt && r@[1].1.base_asset
            == AssetId::Eth && r@[1].1.redis_key@ == "trades:eth_usdt"@,
        forall|i: int|
            0 <= i < 2 ==> (#[trigger] r@[i]).1.quote_asset == AssetId::Usdt && r@[i].1.min_order_size == UNIT,
{
    let mut map: Vec<(MarketId, MarketConfig)> = Vec::new();
    let active_markets: Vec<MarketId> = vec![MarketId::BtcUsdt, MarketId::EthUsdt];
    let mut k: usize = 0;
    while k < active_markets.len()
        invariant
            active_markets@ == seq![MarketId::BtcUsdt, MarketId::EthUsdt],
            k <= 2,
            map@.len() == k,
            forall|i: int| 0 <= i < k ==> (#[trigger] map@[i]).0 == active_markets@[i] && map@[i].1.market_id
                == active_markets@[i] && map@[i].1.quote_asset == AssetId::Usdt && map@[i].1.min_order_size == UNIT
                && (active_markets@[i] == MarketId::BtcUsdt ==> map@[i].1.base_asset == AssetId::Btc
                    && map@[i].1.redis_key@ == "trades:btc_usdt"@)
                && (active_markets@[i] == MarketId::EthUsdt ==> map@[i].1.base_asset == AssetId::Eth
                    && map@[i].1.redis_key@ == "trades:eth_usdt"@),
        decreases 2 - k,
    {
        let id = active_markets[k];
        map.push((id, MarketConfig::from_id(id)));
        k = k + 1;
    }
    map
}

/// Why an order request is turned away before it reaches a market's queue.
#[derive(Debug, Clone, Copy, PartialEq, Eq, Structural)]
pub enum RouteError {
    /// The request carries no action.
    NoAction,
    /// The request asks for something other than a new order.
    OnlyCreate,
    /// The request's market is not in the registry.
    MarketNotSupported,
}

impl RouteError {
    /// The message the client is answered with.
    pub fn message(&self) -> (r: &'static str)
        ensures
            *self == RouteError::NoAction ==> r@ == "No action provided"@,
            *self == RouteError::OnlyCreate ==> r@ == "Only CreateOrder allowed here"@,
            *self == RouteError::MarketNotSupported ==> r@ == "Market not supported"@,
    {
        match self {
            RouteError::NoAction => "No action provided",
            RouteError::OnlyCreate => "Only CreateOrder allowed here",
            RouteError::MarketNotSupported => "Market not supported",
        }
    }
}

/// Position of the first entry of `markets` for `market`, or -1.
pub open spec fn market_index(markets: Seq<(MarketId, MarketConfig)>, market: MarketId) -> int
    decreases markets.len(),
{
    if markets.len() == 0 {
        -1
    } else if markets[0].0 == market {
        0
    } else {
        let rest = market_index(markets.drop_first(), market);
        if rest < 0 {
            -1
        } else {
            rest + 1
        }
    }
}

proof fn lemma_market_index(markets: Seq<(MarketId, MarketConfig)>, market: MarketId)
    ensures
        -1 <= market_index(markets, market) < markets.len(),
        market_index(markets, market) >= 0 ==> markets[market_index(markets, market)].0 == market,
        forall|k: int| 0 <= k < markets.len() && (k < market_index(markets, market) || market_index(markets, market) < 0)
            ==> #[trigger] markets[k].0 != market,
    decreases markets.len(),
{
    if markets.len() > 0 && markets[0].0 != market {
        let rest = markets.drop_first();
        lemma_market_index(rest, market);
        assert forall|k: int| 0 <= k < markets.len() && (k < market_index(markets, market) || market_index(markets, market) < 0)
            implies #[trigger] markets[k].0 != market by {
            if k > 0 {
                assert(markets[k] == rest[k - 1]);
            }
        }
    }
}

/// Where a new order goes: the queue of its market. A request without an
/// action, with another action than a new order, or for a market missing
/// from `markets` is turned away; the first entry of a market counts.
pub fn route_order(action: Option<ActionType>, market: MarketId, markets: &Vec<(MarketId, MarketConfig)>) -> (r:
    Result<&'static str, RouteError>)
    ensures
        action is None ==> r == Err::<&'static str, RouteError>(RouteError::NoAction),
        action matches Some(a) && a != ActionType::Create ==> r == Err::<&'static str, RouteError>(RouteError::OnlyCreate),
        action == Some(ActionType::Create) ==> match r {
            Ok(key) => market_index(markets@, market) >= 0 && key == markets@[market_index(markets@, market)].1.redis_key,
            Err(e) => e == RouteError::MarketNotSupported && market_index(markets@, market) < 0,
        },
{
    match action {
        None => Err(RouteError::NoAction),
        Some(ActionType::Create) => {
            let mut i: usize = 0;
            while i < markets.len()
                invariant
                    action == Some(ActionType::Create),
                    i <= markets@.len(),
                    forall|k: int| 0 <= k < i ==> (#[trigger] markets@[k]).0 != market,
                decreases markets@.len() - i,
            {
                if markets[i].0 == market {
                    proof {
                        lemma_market_index(markets@, market);
                        let m = market_index(markets@, market);
                        assert(m == i as int) by {
                            if m < 0 || m > i {
                                assert(markets@[i as int].0 != market);
                            }
                            if 0 <= m < i {
                                assert(markets@[m].0 != market);
                            }
                        }
                    }
                    return Ok(markets[i].1.redis_key);
                }
                i = i + 1;
            }
            proof {
                lemma_market_index(markets@, market);
                let m = market_index(markets@, market);
                if m >= 0 {
                    assert(markets@[m].0 != market);
                }
            }
            Err(RouteError::MarketNotSupported)
        },
        Some(_) => Err(RouteError::OnlyCreate),
    }
}

} // verus!
