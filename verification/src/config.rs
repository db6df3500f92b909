//! The settings that the gateway starts with.

use vstd::prelude::*;
use vstd::string::*;
use std::time::Duration;

verus! {

/// The whole seconds of a duration.
pub uninterp spec fn seconds_of(d: Duration) -> nat;

/// What a duration holds beyond its whole seconds, in nanoseconds.
pub uninterp spec fn subsec_nanos_of(d: Duration) -> nat;

/// Trusted: `Duration::from_secs`. The result lasts `secs` whole seconds and
/// nothing beyond them: a duration is its whole seconds and its nanoseconds,
/// and the two are fixed here.
#[verifier::external_body]
pub(crate) fn duration_from_secs(secs: u64) -> (d: Duration)
    ensures
        seconds_of(d) == secs,
        subsec_nanos_of(d) == 0,
{
    Duration::from_secs(secs)
}

/// Trusted: `Duration::clone`. A duration is a plain value: the copy is the
/// duration itself.
pub assume_specification[ <Duration as Clone>::clone ](d: &Duration) -> (r: Duration)
    ensures
        r == *d,
;

/// Candles kept per stored key, and candles in a history reply.
pub const MAX_KLINES: i64 = 500;

/// Alerts kept in the history.
pub const MAX_ALERT_HISTORY: usize = 50;

/// Milliseconds during which the same alert is not raised again.
pub const ALERT_COOLDOWN_MS: i64 = 60_000;

/// Seconds for which a trade stream outlives its last room.
pub const LAZY_UNSUBSCRIBE_DELAY: u64 = 60;

/// Messages that the socket server buffers per client before it gives up
/// on the client.
pub const SOCKET_BUFFER_SIZE: usize = 40960;

/// Clients in the pool for direct requests.
pub const DIRECT_POOL_SIZE: usize = 20;

/// Clients in the pool for narrative requests, which go through the tunnel.
pub const NARRATIVE_POOL_SIZE: usize = 10;

/// Clients in the pool for image requests, which go through the tunnel.
pub const IMAGE_POOL_SIZE: usize = 10;

/// The gateway's settings.
#[derive(Clone)]
pub struct Config {
    pub cache_dir: String,
    pub binance_wss_url: String,
    pub proxy_addr: String,
    pub heartbeat_interval: Duration,
    pub desired_fields: Vec<&'static str>,
    pub max_cache_size_mb: u64,
    pub cache_cleanup_interval: Duration,
}

impl Config {
    /// The default settings: the public upstream stream, a local tunnel on
    /// port 1080, a heartbeat every 20 seconds to the nanosecond, seventeen
    /// monitored fields, a cache of 70 MB that is swept every hour.
    pub fn new() -> (c: Self)
        ensures
            c.cache_dir@ == "./image_cache"@,
            c.binance_wss_url@ == "wss://nbstream.binance.com/w3w/stream"@,
            c.proxy_addr@ == "127.0.0.1:1080"@,
            seconds_of(c.heartbeat_interval) == 20,
            subsec_nanos_of(c.heartbeat_interval) == 0,
            c.desired_fields@.len() == 17,
            c.desired_fields@[0]@ == "icon"@,
            c.desired_fields@[1]@ == "symbol"@,
            c.desired_fields@[2]@ == "price"@,
            c.desired_fields@[3]@ == "marketCap"@,
            c.desired_fields@[4]@ == "chain"@,
            c.desired_fields@[5]@ == "chainId"@,
            c.desired_fields@[6]@ == "contractAddress"@,
            c.desired_fields@[7]@ == "volume1m"@,
            c.desired_fields@[8]@ == "volume5m"@,
            c.desired_fields@[9]@ == "volume1h"@,
            c.desired_fields@[10]@ == "volume4h"@,
            c.desired_fields@[11]@ == "volume24h"@,
            c.desired_fields@[12]@ == "priceChange1m"@,
            c.desired_fields@[13]@ == "priceChange5m"@,
            c.desired_fields@[14]@ == "priceChange1h"@,
            c.desired_fields@[15]@ == "priceChange4h"@,
            c.desired_fields@[16]@ == "priceChange24h"@,
            c.max_cache_size_mb == 70,
            seconds_of(c.cache_cleanup_interval) == 3600,
            subsec_nanos_of(c.cache_cleanup_interval) == 0,
    {
        let mut fields: Vec<&'static str> = Vec::new();
        fields.push("icon");
        fields.push("symbol");
        fields.push("price");
        fields.push("marketCap");
        fields.push("chain");
        fields.push("chainId");
        fields.push("contractAddress");
        fields.push("volume1m");
        fields.push("volume5m");
        fields.push("volume1h");
        fields.push("volume4h");
        fields.push("volume24h");
        fields.push("priceChange1m");
        fields.push("priceChange5m");
        fields.push("priceChange1h");
        fields.push("priceChange4h");
        fields.push("priceChange24h");
        Config {
            cache_dir: String::from_str("./image_cache"),
            binance_wss_url: String::from_str("wss://nbstream.binance.com/w3w/stream"),
            proxy_addr: String::from_str("127.0.0.1:1080"),
            heartbeat_interval: duration_from_secs(20),
            desired_fields: fields,
            max_cache_size_mb: 70,
            cache_cleanup_interval: duration_from_secs(3600),
        }
    }

    /// Whether upstream connections are made directly, without a tunnel: so
    /// it is where the tunnel address is empty or is the word `none`.
    pub fn is_direct(&self) -> (r: bool)
        ensures
            r == (self.proxy_addr@.len() == 0 || self.proxy_addr@ == "none"@),
    {
        self.proxy_addr.as_str().unicode_len() == 0 || crate::text::same_text(
            self.proxy_addr.as_str(),
            "none",
        )
    }
}

} // verus!
