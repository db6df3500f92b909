//! Routing of upstream frames: which room a candle belongs to, which rooms a
//! trade is merged into and at which of its two prices, and whether a trade
//! is an outlier to drop.

use vstd::prelude::*;
use vstd::string::*;
use crate::clock::{candle_seconds_of_text, candle_seconds_spec};
use crate::decimal::parse_i64_spec;
use crate::history::Candle;
use crate::keys::{normalize_address, normalize_spec, parse_room_key, parse_room_key_spec,
    parse_tick_stream, parse_tick_stream_spec, room_key, room_key_spec};
use crate::registry::Registry;
use crate::text::{contains, contains_spec, eq_ignore_ascii_case, eq_ignore_ascii_case_spec, texts};
use crate::types::{BinanceKlineDataWrapper, BinanceStreamWrapper};

verus! {

/// Whether a frame is the acknowledgement of a request, which carries no
/// data: it holds the text `"result":null`.
pub open spec fn is_ack_spec(text: Seq<char>) -> bool {
    contains_spec(text, "\"result\":null"@)
}

/// Tells whether a frame is an acknowledgement, to be passed over.
pub fn is_ack(text: &str) -> (r: bool)
    ensures
        r == is_ack_spec(text@),
{
    contains(text, "\"result\":null")
}

/// The room that the candle of the stream `stream` belongs to: the stream's
/// name must have the four pieces of a room key; the room is that of its pool
/// id, its address in canonical form, and its interval.
pub open spec fn kline_room_spec(stream: Seq<char>) -> Option<Seq<char>> {
    match parse_room_key_spec(stream) {
        Some(f) => Some(room_key_spec(f.0, normalize_spec(f.0, f.1), f.2)),
        None => None,
    }
}

/// Finds the room of a candle frame by the name of its stream; `None` where
/// the name is not that of a candle stream, and the frame is dropped.
pub fn kline_room(stream: &str) -> (r: Option<String>)
    ensures
        match r {
            Some(room) => kline_room_spec(stream@) == Some(room@),
            None => kline_room_spec(stream@) is None,
        },
{
    match parse_room_key(stream) {
        Some(name) => {
            let address = normalize_address(name.pool_id, name.address.as_str());
            Some(room_key(name.pool_id, address.as_str(), name.interval.as_str()))
        },
        None => None,
    }
}

/// Where a candle frame goes, and the time of its candle.
#[derive(Debug)]
pub struct KlineUpdate {
    /// The room whose open candle the frame replaces.
    pub room: String,
    /// The time of the candle, in seconds.
    pub time: i64,
}

/// The number that a text of milliseconds denotes; 0 where it is no number.
pub open spec fn millis_spec(text: Seq<char>) -> int {
    match parse_i64_spec(text) {
        Some(v) => v,
        None => 0,
    }
}

/// Reads the room and the time off a candle frame: the room by the name of
/// the frame's stream, the time from the last of its six values, which is in
/// milliseconds. `None` where the stream's name is not that of a candle
/// stream.
pub fn parse_kline(frame: &BinanceStreamWrapper<BinanceKlineDataWrapper>) -> (r: Option<KlineUpdate>)
    ensures
        match r {
            Some(u) => {
                &&& kline_room_spec(frame.stream@) == Some(u.room@)
                &&& u.time == candle_seconds_spec(millis_spec(frame.data.kline_data.values.5@))
            },
            None => kline_room_spec(frame.stream@) is None,
        },
{
    match kline_room(frame.stream.as_str()) {
        Some(room) => {
            let time = candle_seconds_of_text(frame.data.kline_data.values.5.as_str());
            Some(KlineUpdate { room, time })
        },
        None => None,
    }
}

/// Which token of a traded pair is the followed one.
#[derive(Debug, Clone, Copy, PartialEq, Eq, Structural)]
pub enum Side {
    Token0,
    Token1,
}

/// The side of a trade on which the followed token `followed` stands: the
/// first whose address is `followed` up to the case of ASCII letters.
pub open spec fn side_spec(followed: Seq<char>, t0a: Seq<char>, t1a: Seq<char>) -> Option<Side> {
    if eq_ignore_ascii_case_spec(t0a, followed) {
        Some(Side::Token0)
    } else if eq_ignore_ascii_case_spec(t1a, followed) {
        Some(Side::Token1)
    } else {
        None
    }
}

/// Finds the side of the followed token in a trade.
pub fn side_of(followed: &str, t0a: &str, t1a: &str) -> (r: Option<Side>)
    ensures
        r == side_spec(followed@, t0a@, t1a@),
{
    if eq_ignore_ascii_case(t0a, followed) {
        Some(Side::Token0)
    } else if eq_ignore_ascii_case(t1a, followed) {
        Some(Side::Token1)
    } else {
        None
    }
}

/// Where a trade goes: the side whose price counts, and the rooms to merge
/// it into.
pub struct TickRoute {
    /// The side of the followed token.
    pub side: Side,
    /// The canonical address of the followed token.
    pub address: String,
    /// The live rooms of that address, each once.
    pub rooms: Vec<String>,
}

/// Routes a trade frame: reads the followed address off the stream's name,
/// finds its side among the two token addresses of the trade, and looks up
/// the live rooms of the address in canonical form. `None` where the name is
/// not that of a trade stream or neither token is the followed one: the frame
/// is dropped.
pub fn route_tick(registry: &Registry, stream: &str, t0a: &str, t1a: &str) -> (r: Option<
    TickRoute,
>)
    requires
        registry.wf(),
    ensures
        match parse_tick_stream_spec(stream@) {
            Some(f) => match side_spec(f.1, t0a@, t1a@) {
                Some(side) => {
                    &&& r is Some
                    &&& r->0.side == side
                    &&& r->0.address@ == normalize_spec(f.0, f.1)
                    &&& texts(r->0.rooms@).no_duplicates()
                    &&& texts(r->0.rooms@).to_set() == registry@.rooms_of(r->0.address@)
                },
                None => r is None,
            },
            None => r is None,
        },
{
    match parse_tick_stream(stream) {
        Some(name) => {
            match side_of(name.address.as_str(), t0a, t1a) {
                Some(side) => {
                    let address = normalize_address(name.pool_id, name.address.as_str());
                    let rooms = registry.rooms_for(address.as_str());
                    Some(TickRoute { side, address, rooms })
                },
                None => None,
            }
        },
        None => None,
    }
}

/// What becomes of a trade in one room.
#[derive(Debug, Clone, Copy, PartialEq, Eq, Structural)]
pub enum TickVerdict {
    /// The room has no open candle: nothing to merge into, nothing is sent.
    NoCandle,
    /// The trade is an outlier on thin volume: the candle stays as it is and
    /// nothing is sent.
    Drop,
    /// The trade moves the candle's close, high and low, and the candle is
    /// sent to the room.
    Merge,
}

/// Judges a trade against the open candle of a room, from the outcome of
/// the comparisons that the caller has made on the prices:
/// `close_positive`, that the candle's close is above zero;
/// `ratio_over_limit`, that the larger of price and close is more than twice
/// the smaller; `volume_under_floor`, that the trade's volume in USD is
/// under 10. The trade is dropped exactly if all three hold.
pub fn tick_verdict(
    has_candle: bool,
    close_positive: bool,
    ratio_over_limit: bool,
    volume_under_floor: bool,
) -> (v: TickVerdict)
    ensures
        (v is NoCandle) == !has_candle,
        (v is Drop) == (has_candle && close_positive && ratio_over_limit && volume_under_floor),
        (v is Merge) == (has_candle && !(close_positive && ratio_over_limit
            && volume_under_floor)),
{
    if !has_candle {
        TickVerdict::NoCandle
    } else if close_positive && ratio_over_limit && volume_under_floor {
        TickVerdict::Drop
    } else {
        TickVerdict::Merge
    }
}

/// What the caller has found on comparing the price of a trade with the
/// open candle of a room.
#[derive(Debug, Clone, Copy, PartialEq, Eq, Structural)]
pub struct PriceChecks {
    /// The candle's close is above zero.
    pub close_positive: bool,
    /// The larger of price and close is more than twice the smaller.
    pub ratio_over_limit: bool,
    /// The trade's volume in USD is under 10.
    pub volume_under_floor: bool,
    /// The price is above the candle's high.
    pub above_high: bool,
    /// The price is below the candle's low.
    pub below_low: bool,
}

/// The candle after a trade at `price` has been merged into it: the close is
/// the price, the high and the low give way to it where it lies beyond
/// them, and time, open and volume are as they were.
pub open spec fn merged<P>(candle: Candle<P>, price: P, checks: PriceChecks) -> Candle<P> {
    Candle {
        time: candle.time,
        open: candle.open,
        high: if checks.above_high {
            price
        } else {
            candle.high
        },
        low: if checks.below_low {
            price
        } else {
            candle.low
        },
        close: price,
        volume: candle.volume,
    }
}

/// A merged trade never moves the candle's time, and it changes the candle
/// unless its price is the candle's close already: then the close stays, and
/// so do the high and the low that the close lies between.
pub proof fn lemma_merge_moves_close<P>(candle: Candle<P>, price: P, checks: PriceChecks)
    requires
        price != candle.close,
    ensures
        merged(candle, price, checks).time == candle.time,
        merged(candle, price, checks).close != candle.close,
        merged(candle, price, checks) != candle,
        merged(candle, price, checks).volume == candle.volume,
{
}

/// Merges a trade into the open candle of a room, unless the room has none
/// or the trade is an outlier on thin volume. `checks` holds what the caller
/// has found on comparing `price` with the candle, and is not looked at
/// where there is no candle. The verdict comes back: after `Merge` the
/// candle is to be sent to the room; after the others it is as it was.
pub fn merge_trade<P: Copy>(current: &mut Option<Candle<P>>, price: P, checks: PriceChecks) -> (v:
    TickVerdict)
    ensures
        (v is NoCandle) == (*old(current) is None),
        (v is Drop) == (*old(current) is Some && checks.close_positive && checks.ratio_over_limit
            && checks.volume_under_floor),
        v is Merge ==> *final(current) == Some(merged(old(current)->0, price, checks)),
        !(v is Merge) ==> *final(current) == *old(current),
{
    let verdict = tick_verdict(
        current.is_some(),
        checks.close_positive,
        checks.ratio_over_limit,
        checks.volume_under_floor,
    );
    match verdict {
        TickVerdict::Merge => {
            match *current {
                Some(candle) => {
                    let high = if checks.above_high {
                        price
                    } else {
                        candle.high
                    };
                    let low = if checks.below_low {
                        price
                    } else {
                        candle.low
                    };
                    *current = Some(
                        Candle {
                            time: candle.time,
                            open: candle.open,
                            high,
                            low,
                            close: price,
                            volume: candle.volume,
                        },
                    );
                },
                None => {},
            }
        },
        _ => {},
    }
    verdict
}

} // verus!
