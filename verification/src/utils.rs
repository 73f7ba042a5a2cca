//! A market as the engine's configuration file describes it.

use vstd::prelude::*;
use vstd::string::*;

verus! {

/// A market: base and quote asset names and the prefix of its queue key.
#[derive(Debug, Clone)]
pub struct MarketConfig {
    pub base: String,
    pub quote: String,
    pub queue_prefix: String,
}

impl MarketConfig {
    /// `"{queue_prefix}:{base}_{quote}"`.
    pub fn get_redis_key(&self) -> (r: String)
        ensures
            r@ == self.queue_prefix@ + seq![':'] + self.base@ + seq!['_'] + self.quote@,
    {
        let mut r = self.queue_prefix.clone();
        r.append(":");
        r.append(self.base.as_str());
        r.append("_");
        r.append(self.quote.as_str());
        proof {
            reveal_strlit(":");
            reveal_strlit("_");
        }
        r
    }

    /// `"{base}_{quote}"`.
    pub fn get_symbol(&self) -> (r: String)
        ensures
            r@ == self.base@ + seq!['_'] + self.quote@,
    {
        let mut r = self.base.clone();
        r.append("_");
        r.append(self.quote.as_str());
        proof {
            reveal_strlit("_");
        }
        r
    }

    /// The base asset's name.
    pub fn get_base(&self) -> (r: String)
        ensures
            r@ == self.base@,
    {
        self.base.clone()
    }

    /// The quote asset's name.
    pub fn get_quote(&self) -> (r: String)
        ensures
            r@ == self.quote@,
    {
        self.quote.clone()
    }
}

} // verus!
