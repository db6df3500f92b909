//! The history service's arithmetic: how many candles to fetch again, where
//! the window of a reply begins and ends, which of its slots are real candles
//! and which are filled in, and from what.
//!
//! Candles are known here by their times alone. The reply is laid out as a
//! plan over the caller's own list of candles: each slot names the candle to
//! take, or the candle whose close a filled-in slot repeats.

use vstd::prelude::*;
use vstd::string::*;
use vstd::arithmetic::div_mod::lemma_fundamental_div_mod;
use crate::clock::{bucket_of, bucket_start};
use crate::config::MAX_KLINES;
use crate::decimal::{append_i64, decimal_int};
use crate::interval::{api_interval_spec, format_interval_for_api};
use crate::text::{eq_ignore_ascii_case, eq_ignore_ascii_case_spec};

verus! {

// ---------------------------------------------------------------------------
// What to fetch again
// ---------------------------------------------------------------------------

/// `a / b` rounded up, for a positive `b`.
pub open spec fn ceil_div(a: int, b: int) -> int {
    if a % b == 0 {
        a / b
    } else {
        a / b + 1
    }
}

/// Candles missing since the newest stored one: the intervals that have
/// begun since its time, and one more for the candle that was still open.
pub open spec fn missing_spec(now_ms: int, last_ms: int, interval_ms: int) -> int {
    ceil_div(now_ms - last_ms, interval_ms) + 1
}

/// What the history service asks upstream for.
#[derive(Debug, Clone, Copy, PartialEq, Eq, Structural)]
pub struct RefetchPlan {
    /// The stored window is too old to extend: erase it first.
    pub clear_cache: bool,
    /// The number of candles to fetch.
    pub limit: i64,
}

/// The plan for a stored window whose newest candle is at `last_ms`, or for
/// no stored window: a full window where nothing is stored; a full window
/// after erasing where more than a full window is missing; else the missing
/// candles, but two at least.
pub open spec fn refetch_spec(last_ms: Option<i64>, now_ms: int, interval_ms: int) -> RefetchPlan {
    match last_ms {
        None => RefetchPlan { clear_cache: false, limit: 500 },
        Some(last) => {
            let missing = missing_spec(now_ms, last as int, interval_ms);
            if missing > 500 {
                RefetchPlan { clear_cache: true, limit: 500 }
            } else if missing < 2 {
                RefetchPlan { clear_cache: false, limit: 2 }
            } else {
                RefetchPlan { clear_cache: false, limit: missing as i64 }
            }
        },
    }
}

/// Decides how many candles to fetch, and whether to erase the stored window
/// first.
pub fn refetch_plan(last_ms: Option<i64>, now_ms: i64, interval_ms: i64) -> (plan: RefetchPlan)
    requires
        interval_ms > 0,
    ensures
        plan == refetch_spec(last_ms, now_ms as int, interval_ms as int),
        2 <= plan.limit <= 500,
{
    match last_ms {
        None => RefetchPlan { clear_cache: false, limit: MAX_KLINES },
        Some(last) => {
            let diff: i128 = (now_ms as i128) - (last as i128);
            let ghost d = diff as int;
            let ghost w = interval_ms as int;
            proof {
                lemma_fundamental_div_mod(d, w);
            }
            if diff <= 0 {
                proof {
                    // a quotient of a number that is not positive is not
                    // positive, and is negative unless the division is exact
                    assert(ceil_div(d, w) <= 0) by (nonlinear_arith)
                        requires
                            d <= 0,
                            w > 0,
                            d == w * (d / w) + d % w,
                            0 <= d % w < w,
                            ceil_div(d, w) == (if d % w == 0 {
                                d / w
                            } else {
                                d / w + 1
                            }),
                    ;
                }
                RefetchPlan { clear_cache: false, limit: 2 }
            } else {
                let whole: i128 = diff / (interval_ms as i128);
                let rest: i128 = diff % (interval_ms as i128);
                let begun: i128 = if rest == 0 {
                    whole
                } else {
                    whole + 1
                };
                assert(begun == ceil_div(d, w));
                assert(begun >= 1) by (nonlinear_arith)
                    requires
                        d > 0,
                        w > 0,
                        d == w * (d / w) + d % w,
                        0 <= d % w < w,
                        begun == (if d % w == 0 {
                            d / w
                        } else {
                            d / w + 1
                        }),
                ;
                if begun > 499 {
                    RefetchPlan { clear_cache: true, limit: MAX_KLINES }
                } else {
                    RefetchPlan { clear_cache: false, limit: (begun + 1) as i64 }
                }
            }
        },
    }
}

// ---------------------------------------------------------------------------
// The window of a reply
// ---------------------------------------------------------------------------

/// The time of the first slot of a window of `count` slots that ends at the
/// bucket of `now_ms`.
pub open spec fn window_start(now_ms: int, interval_ms: int, count: int) -> int {
    bucket_start(now_ms, interval_ms) - (count - 1) * interval_ms
}

/// The time of slot `i` of that window.
pub open spec fn slot_time(now_ms: int, interval_ms: int, count: int, i: int) -> int {
    window_start(now_ms, interval_ms, count) + i * interval_ms
}

/// The greatest offset at which `t` stands in `times`, if it stands there.
pub open spec fn find_last(times: Seq<i64>, t: int) -> Option<int>
    decreases times.len(),
{
    if times.len() == 0 {
        None
    } else if times.last() == t {
        Some(times.len() - 1)
    } else {
        find_last(times.drop_last(), t)
    }
}

/// The candle whose close a slot carries on: the slot's own candle where it
/// has one, else what the slot before carries on; `None` before the first
/// real candle of the window.
pub open spec fn carried(
    times: Seq<i64>,
    now_ms: int,
    interval_ms: int,
    count: int,
    i: int,
) -> Option<int>
    decreases i + 1,
{
    if i < 0 {
        None
    } else {
        match find_last(times, slot_time(now_ms, interval_ms, count, i)) {
            Some(j) => Some(j),
            None => carried(times, now_ms, interval_ms, count, i - 1),
        }
    }
}

/// One slot of a reply.
#[derive(Debug, Clone, Copy, PartialEq, Eq, Structural)]
pub struct Slot {
    /// The slot's time, in milliseconds.
    pub time: i64,
    /// The offset of the stored candle that stands at this time; `None` where
    /// there is none and the slot is filled in.
    pub source: Option<usize>,
    /// The offset of the stored candle whose close this slot carries on; for
    /// a filled-in slot, the close that it is flat at. `None` where no real
    /// candle stands at or before the slot: the close is then the seed.
    pub close_from: Option<usize>,
}

/// Where the close before the first real candle comes from.
#[derive(Debug, Clone, Copy, PartialEq, Eq, Structural)]
pub enum Seed {
    /// No candle is stored: the close is zero.
    Zero,
    /// All stored candles stand at one time: the close of the candle at this
    /// offset.
    CloseOf(usize),
    /// The midpoint of open and close of the candle at this offset, which is
    /// the second newest.
    MidpointOf(usize),
}

/// `j` is the last offset at which the time `times[j]` stands.
pub open spec fn is_last_of_its_time(times: Seq<i64>, j: int) -> bool {
    &&& 0 <= j < times.len()
    &&& forall|k: int| j < k < times.len() ==> #[trigger] times[k] != times[j]
}

/// `top` is the newest of `times`.
pub open spec fn is_newest(times: Seq<i64>, top: i64) -> bool {
    &&& exists|k: int| 0 <= k < times.len() && #[trigger] times[k] == top
    &&& forall|k: int| 0 <= k < times.len() ==> #[trigger] times[k] <= top
}

/// What the seed of `times` is: zero without candles; the close of the last
/// candle where all stand at one time; else the midpoint of the last candle
/// that stands at the second newest time.
pub open spec fn seed_ok(times: Seq<i64>, seed: Seed) -> bool {
    match seed {
        Seed::Zero => times.len() == 0,
        Seed::CloseOf(j) => {
            &&& is_last_of_its_time(times, j as int)
            &&& forall|k: int| 0 <= k < times.len() ==> #[trigger] times[k] == times[j as int]
        },
        Seed::MidpointOf(j) => {
            &&& is_last_of_its_time(times, j as int)
            &&& exists|top: i64|
                {
                    &&& #[trigger] is_newest(times, top)
                    &&& times[j as int] < top
                    &&& forall|k: int|
                        0 <= k < times.len() && #[trigger] times[k] < top ==> times[k]
                            <= times[j as int]
                }
        },
    }
}

/// The plan of a reply: its slots, oldest first, and the seed.
#[derive(Debug)]
pub struct GapFill {
    pub slots: Vec<Slot>,
    pub seed: Seed,
}

/// Finds the greatest offset at which `t` stands in `times`.
pub fn last_position(times: &Vec<i64>, t: i64) -> (r: Option<usize>)
    ensures
        match r {
            Some(j) => find_last(times@, t as int) == Some(j as int) && j < times.len()
                && times@[j as int] == t,
            None => find_last(times@, t as int) is None,
        },
{
    let mut n: usize = times.len();
    proof {
        assert(times@.take(n as int) =~= times@);
    }
    while n > 0
        invariant
            n <= times.len(),
            find_last(times@, t as int) == find_last(times@.take(n as int), t as int),
        decreases n,
    {
        let ghost cur = times@.take(n as int);
        proof {
            assert(cur.last() == times@[n - 1]);
            assert(cur.drop_last() =~= times@.take(n - 1));
        }
        if times[n - 1] == t {
            return Some(n - 1);
        }
        n -= 1;
    }
    None
}

/// Picks the seed: scans the times once for the newest and the second newest
/// and keeps the last candle of each.
pub fn pick_seed(times: &Vec<i64>) -> (seed: Seed)
    ensures
        seed_ok(times@, seed),
{
    if times.len() == 0 {
        return Seed::Zero;
    }
    let mut top: usize = 0;
    let mut second: Option<usize> = None;
    let mut i: usize = 1;
    while i < times.len()
        invariant
            1 <= i <= times.len(),
            top < i,
            forall|k: int| 0 <= k < i ==> #[trigger] times@[k] <= times@[top as int],
            forall|k: int| top < k < i ==> #[trigger] times@[k] != times@[top as int],
            match second {
                Some(s) => {
                    &&& s < i
                    &&& times@[s as int] < times@[top as int]
                    &&& forall|k: int|
                        0 <= k < i && #[trigger] times@[k] < times@[top as int] ==> times@[k]
                            <= times@[s as int]
                    &&& forall|k: int| s < k < i ==> #[trigger] times@[k] != times@[s as int]
                },
                None => forall|k: int| 0 <= k < i ==> #[trigger] times@[k] == times@[top as int],
            },
        decreases times.len() - i,
    {
        let t = times[i];
        if t > times[top] {
            second = Some(top);
            top = i;
        } else if t == times[top] {
            top = i;
        } else {
            match second {
                Some(s) => {
                    if t >= times[s] {
                        second = Some(i);
                    }
                },
                None => {
                    second = Some(i);
                },
            }
        }
        i += 1;
    }
    match second {
        Some(s) => {
            assert(is_newest(times@, times@[top as int]));
            Seed::MidpointOf(s)
        },
        None => Seed::CloseOf(top),
    }
}

/// Lays out the reply to a history request: `target_count` slots, one
/// interval apart, the last one at the bucket that holds `now_ms`. A slot at
/// whose time a stored candle stands takes that candle (the last one, where
/// several stand there); any other slot is filled in, flat at the close of
/// the nearest real candle before it, or at the seed where there is none.
pub fn fill_kline_gaps(times: &Vec<i64>, interval_ms: i64, now_ms: i64, target_count: usize) -> (r:
    GapFill)
    requires
        interval_ms > 0,
        target_count >= 1,
        window_start(now_ms as int, interval_ms as int, target_count as int) >= i64::MIN,
    ensures
        r.slots.len() == target_count,
        r.slots@[target_count - 1].time == bucket_start(now_ms as int, interval_ms as int),
        forall|i: int|
            0 <= i < target_count ==> {
                &&& (#[trigger] r.slots@[i]).time == slot_time(
                    now_ms as int,
                    interval_ms as int,
                    target_count as int,
                    i,
                )
                &&& match r.slots@[i].source {
                    Some(j) => find_last(times@, r.slots@[i].time as int) == Some(j as int) && j
                        < times.len(),
                    None => find_last(times@, r.slots@[i].time as int) is None,
                }
                &&& match r.slots@[i].close_from {
                    Some(j) => carried(
                        times@,
                        now_ms as int,
                        interval_ms as int,
                        target_count as int,
                        i,
                    ) == Some(j as int) && j < times.len(),
                    None => carried(
                        times@,
                        now_ms as int,
                        interval_ms as int,
                        target_count as int,
                        i,
                    ) is None,
                }
            },
        seed_ok(times@, r.seed),
{
    let ghost w = interval_ms as int;
    let ghost n = target_count as int;
    let ghost now = now_ms as int;
    proof {
        // the window ends at the bucket of `now_ms`, which is no later than
        // `now_ms` itself, and begins no later than it ends
        lemma_fundamental_div_mod(now, w);
        assert(bucket_start(now, w) == w * (now / w)) by (nonlinear_arith);
        assert((n - 1) * w >= 0) by (nonlinear_arith)
            requires
                n >= 1,
                w > 0,
        ;
    }
    let end: i64 = bucket_of(now_ms, interval_ms);
    let span: i128 = ((target_count - 1) as i128) * (interval_ms as i128);
    let start: i64 = ((end as i128) - span) as i64;
    let seed = pick_seed(times);
    let mut slots: Vec<Slot> = Vec::new();
    let mut running: Option<usize> = None;
    let mut i: usize = 0;
    while i < target_count
        invariant
            i <= target_count,
            interval_ms > 0,
            w == interval_ms as int,
            n == target_count as int,
            now == now_ms as int,
            start == window_start(now, w, n),
            end == bucket_start(now, w),
            start + (n - 1) * w == end,
            slots.len() == i,
            running == (if i == 0 {
                None::<usize>
            } else {
                slots@[i - 1].close_from
            }),
            forall|k: int|
                0 <= k < i ==> {
                    &&& (#[trigger] slots@[k]).time == slot_time(now, w, n, k)
                    &&& match slots@[k].source {
                        Some(j) => find_last(times@, slots@[k].time as int) == Some(j as int)
                            && j < times.len(),
                        None => find_last(times@, slots@[k].time as int) is None,
                    }
                    &&& match slots@[k].close_from {
                        Some(j) => carried(times@, now, w, n, k) == Some(j as int) && j
                            < times.len(),
                        None => carried(times@, now, w, n, k) is None,
                    }
                },
        decreases target_count - i,
    {
        proof {
            assert(0 <= i * w <= (n - 1) * w) by (nonlinear_arith)
                requires
                    0 <= i <= n - 1,
                    w > 0,
            ;
        }
        let offset: i128 = (i as i128) * (interval_ms as i128);
        let time: i64 = ((start as i128) + offset) as i64;
        let source = last_position(times, time);
        let close_from = match source {
            Some(j) => Some(j),
            None => running,
        };
        proof {
            if i > 0 {
                assert(slots@[i - 1].time == slot_time(now, w, n, i - 1));
            }
        }
        slots.push(Slot { time, source, close_from });
        running = close_from;
        i += 1;
    }
    proof {
        assert(slot_time(now, w, n, n - 1) == end);
    }
    GapFill { slots, seed }
}

// ---------------------------------------------------------------------------
// The candles of a reply
// ---------------------------------------------------------------------------

/// A candle: its time, in milliseconds, and its prices and volume. The
/// library copies prices and never computes with them, so it takes them as
/// the caller has them.
#[derive(Debug, Clone, Copy)]
pub struct Candle<P> {
    pub time: i64,
    pub open: P,
    pub high: P,
    pub low: P,
    pub close: P,
    pub volume: P,
}

/// The times of candles.
pub open spec fn candle_times<P>(raw: Seq<Candle<P>>) -> Seq<i64> {
    Seq::new(raw.len(), |i: int| raw[i].time)
}

/// The candle that fills a gap at `time`: flat at `close`, without volume.
pub open spec fn flat_candle<P>(time: i64, close: P, zero: P) -> Candle<P> {
    Candle { time, open: close, high: close, low: close, close, volume: zero }
}

/// The candle in slot `i` of a reply: the stored candle that stands at the
/// slot's time, the last one where several do; else a flat candle without
/// volume at the close of the nearest real candle before it in the window,
/// or at `seed` where there is none.
pub open spec fn reply_candle<P>(
    raw: Seq<Candle<P>>,
    now_ms: int,
    interval_ms: int,
    count: int,
    i: int,
    seed: P,
    zero: P,
) -> Candle<P> {
    let time = slot_time(now_ms, interval_ms, count, i);
    match find_last(candle_times(raw), time) {
        Some(j) => raw[j],
        None => flat_candle(
            time as i64,
            match carried(candle_times(raw), now_ms, interval_ms, count, i) {
                Some(j) => raw[j].close,
                None => seed,
            },
            zero,
        ),
    }
}

/// With nothing stored, every candle of a reply is filled in: flat at the
/// seed and without volume.
pub proof fn lemma_nothing_stored<P>(
    raw: Seq<Candle<P>>,
    now_ms: int,
    interval_ms: int,
    count: int,
    i: int,
    seed: P,
    zero: P,
)
    requires
        raw.len() == 0,
    ensures
        carried(candle_times(raw), now_ms, interval_ms, count, i) is None,
        reply_candle(raw, now_ms, interval_ms, count, i, seed, zero) == flat_candle(
            slot_time(now_ms, interval_ms, count, i) as i64,
            seed,
            zero,
        ),
    decreases i + 1,
{
    assert(candle_times(raw).len() == 0);
    if i >= 0 {
        lemma_nothing_stored(raw, now_ms, interval_ms, count, i - 1, seed, zero);
    }
}

/// A slot at whose time exactly one stored candle stands holds that candle;
/// a slot at whose time none stands holds a flat candle without volume.
pub proof fn lemma_reply_slot<P>(
    raw: Seq<Candle<P>>,
    now_ms: int,
    interval_ms: int,
    count: int,
    i: int,
    seed: P,
    zero: P,
)
    ensures
        forall|j: int|
            0 <= j < raw.len() && (#[trigger] raw[j]).time == slot_time(
                now_ms,
                interval_ms,
                count,
                i,
            ) && (forall|k: int| 0 <= k < raw.len() && k != j ==> (#[trigger] raw[k]).time
                != raw[j].time) ==> reply_candle(raw, now_ms, interval_ms, count, i, seed, zero)
                == raw[j],
        (forall|k: int|
            0 <= k < raw.len() ==> (#[trigger] raw[k]).time != slot_time(
                now_ms,
                interval_ms,
                count,
                i,
            )) ==> {
            let c = reply_candle(raw, now_ms, interval_ms, count, i, seed, zero);
            &&& c.volume == zero
            &&& c.open == c.close
            &&& c.high == c.close
            &&& c.low == c.close
            &&& c.time == slot_time(now_ms, interval_ms, count, i) as i64
        },
{
    let times = candle_times(raw);
    let t = slot_time(now_ms, interval_ms, count, i);
    lemma_find_last(times, t);
    assert forall|j: int|
        0 <= j < raw.len() && (#[trigger] raw[j]).time == t && (forall|k: int|
            0 <= k < raw.len() && k != j ==> (#[trigger] raw[k]).time
                != raw[j].time) implies reply_candle(raw, now_ms, interval_ms, count, i, seed, zero)
        == raw[j] by {
        assert(times[j] == t);
        match find_last(times, t) {
            Some(found) => {
                assert(times[found] == raw[found].time);
                if found != j {
                    assert(raw[found].time != raw[j].time);
                }
            },
            None => {},
        }
    }
    if forall|k: int| 0 <= k < raw.len() ==> (#[trigger] raw[k]).time != t {
        match find_last(times, t) {
            Some(found) => {
                assert(times[found] == raw[found].time);
            },
            None => {},
        }
    }
}

/// The times of candles, as a vector.
pub fn times_of<P: Copy>(raw: &Vec<Candle<P>>) -> (times: Vec<i64>)
    ensures
        times@ == candle_times(raw@),
{
    let mut times: Vec<i64> = Vec::new();
    let mut i: usize = 0;
    while i < raw.len()
        invariant
            i <= raw.len(),
            times.len() == i,
            forall|k: int| 0 <= k < i ==> times@[k] == raw@[k].time,
        decreases raw.len() - i,
    {
        times.push(raw[i].time);
        i += 1;
    }
    assert(times@ =~= candle_times(raw@));
    times
}

/// Builds the reply to a history request from the stored candles: a window
/// of `target_count` candles, one interval apart, that ends at the bucket of
/// `now_ms`; real candles where the store has them, flat candles without
/// volume in the gaps. `seed` is the close before the first real candle of
/// the window, which the caller works out from what [`pick_seed`] picks;
/// `zero` is the volume of a filled-in candle.
pub fn fill_candles<P: Copy>(
    raw: &Vec<Candle<P>>,
    interval_ms: i64,
    now_ms: i64,
    target_count: usize,
    seed: P,
    zero: P,
) -> (out: Vec<Candle<P>>)
    requires
        interval_ms > 0,
        target_count >= 1,
        window_start(now_ms as int, interval_ms as int, target_count as int) >= i64::MIN,
    ensures
        out.len() == target_count,
        out@[target_count - 1].time == bucket_start(now_ms as int, interval_ms as int),
        forall|i: int|
            0 <= i < target_count ==> {
                &&& #[trigger] out@[i] == reply_candle(
                    raw@,
                    now_ms as int,
                    interval_ms as int,
                    target_count as int,
                    i,
                    seed,
                    zero,
                )
                &&& out@[i].time == slot_time(
                    now_ms as int,
                    interval_ms as int,
                    target_count as int,
                    i,
                )
            },
{
    let times = times_of(raw);
    let plan = fill_kline_gaps(&times, interval_ms, now_ms, target_count);
    let mut out: Vec<Candle<P>> = Vec::new();
    let mut i: usize = 0;
    while i < target_count
        invariant
            i <= target_count,
            plan.slots.len() == target_count,
            times@ == candle_times(raw@),
            times.len() == raw.len(),
            out.len() == i,
            forall|k: int|
                0 <= k < target_count ==> {
                    &&& (#[trigger] plan.slots@[k]).time == slot_time(
                        now_ms as int,
                        interval_ms as int,
                        target_count as int,
                        k,
                    )
                    &&& match plan.slots@[k].source {
                        Some(j) => find_last(times@, plan.slots@[k].time as int) == Some(j as int)
                            && j < times.len(),
                        None => find_last(times@, plan.slots@[k].time as int) is None,
                    }
                    &&& match plan.slots@[k].close_from {
                        Some(j) => carried(
                            times@,
                            now_ms as int,
                            interval_ms as int,
                            target_count as int,
                            k,
                        ) == Some(j as int) && j < times.len(),
                        None => carried(
                            times@,
                            now_ms as int,
                            interval_ms as int,
                            target_count as int,
                            k,
                        ) is None,
                    }
                },
            forall|k: int|
                0 <= k < i ==> {
                    &&& #[trigger] out@[k] == reply_candle(
                        raw@,
                        now_ms as int,
                        interval_ms as int,
                        target_count as int,
                        k,
                        seed,
                        zero,
                    )
                    &&& out@[k].time == plan.slots@[k].time
                },
        decreases target_count - i,
    {
        let slot = plan.slots[i];
        proof {
            lemma_find_last(times@, slot.time as int);
        }
        let candle = match slot.source {
            Some(j) => raw[j],
            None => {
                let close = match slot.close_from {
                    Some(j) => raw[j].close,
                    None => seed,
                };
                Candle { time: slot.time, open: close, high: close, low: close, close, volume: zero }
            },
        };
        out.push(candle);
        i += 1;
    }
    proof {
        assert(plan.slots@[target_count - 1].time == bucket_start(
            now_ms as int,
            interval_ms as int,
        ));
    }
    out
}

/// What `find_last` finds: the greatest offset at which `t` stands, or
/// nothing where `t` stands nowhere.
pub proof fn lemma_find_last(times: Seq<i64>, t: int)
    ensures
        match find_last(times, t) {
            Some(j) => {
                &&& 0 <= j < times.len()
                &&& times[j] == t
                &&& forall|k: int| j < k < times.len() ==> #[trigger] times[k] != t
            },
            None => forall|k: int| 0 <= k < times.len() ==> #[trigger] times[k] != t,
        },
    decreases times.len(),
{
    if times.len() > 0 && times.last() != t {
        let rest = times.drop_last();
        lemma_find_last(rest, t);
        match find_last(rest, t) {
            Some(j) => {
                assert forall|k: int| j < k < times.len() implies #[trigger] times[k] != t by {
                    if k < rest.len() {
                        assert(rest[k] != t);
                    }
                }
            },
            None => {
                assert forall|k: int| 0 <= k < times.len() implies #[trigger] times[k] != t by {
                    if k < rest.len() {
                        assert(rest[k] != t);
                    }
                }
            },
        }
    }
}

/// Puts `candle` into the place of the open candle of a room if the room
/// has none yet, so that trades have a candle to be merged into; tells
/// whether it did.
pub fn seed_if_empty<P: Copy>(current: &mut Option<Candle<P>>, candle: Candle<P>) -> (seeded: bool)
    ensures
        seeded == (*old(current) is None),
        *final(current) == (if *old(current) is None {
            Some(candle)
        } else {
            *old(current)
        }),
{
    if current.is_none() {
        *current = Some(candle);
        true
    } else {
        false
    }
}

/// Whether a window can be laid out: the interval is positive, a slot is
/// asked for, and the first slot's time is within the range of the type.
pub open spec fn window_fits_spec(now_ms: int, interval_ms: int, count: int) -> bool {
    interval_ms > 0 && count >= 1 && window_start(now_ms, interval_ms, count) >= i64::MIN
}

/// A window can be laid out for every time since the start of 1970 and every
/// interval whose window is no longer than the range of the type: for 500
/// slots, every interval of up to some 18 quadrillion milliseconds.
pub proof fn lemma_window_fits(now_ms: int, interval_ms: int, count: int)
    requires
        now_ms >= 0,
        interval_ms > 0,
        count >= 1,
        (count - 1) * interval_ms <= i64::MAX,
    ensures
        window_fits_spec(now_ms, interval_ms, count),
        window_start(now_ms, interval_ms, count) + (count - 1) * interval_ms == bucket_start(
            now_ms,
            interval_ms,
        ),
        0 <= bucket_start(now_ms, interval_ms) <= now_ms,
{
    lemma_fundamental_div_mod(now_ms, interval_ms);
    assert(bucket_start(now_ms, interval_ms) == interval_ms * (now_ms / interval_ms))
        by (nonlinear_arith);
    assert(now_ms / interval_ms >= 0) by (nonlinear_arith)
        requires
            now_ms >= 0,
            interval_ms > 0,
            now_ms == interval_ms * (now_ms / interval_ms) + now_ms % interval_ms,
            0 <= now_ms % interval_ms < interval_ms,
    ;
    assert(interval_ms * (now_ms / interval_ms) >= 0) by (nonlinear_arith)
        requires
            now_ms / interval_ms >= 0,
            interval_ms > 0,
    ;
}

/// Tells whether a window can be laid out.
pub fn window_fits(now_ms: i64, interval_ms: i64, target_count: usize) -> (r: bool)
    ensures
        r == window_fits_spec(now_ms as int, interval_ms as int, target_count as int),
{
    if interval_ms <= 0 || target_count == 0 {
        return false;
    }
    let rem: i64 = crate::clock::euclid_rem(now_ms, interval_ms);
    let end: i128 = (now_ms as i128) - (rem as i128);
    proof {
        let w = interval_ms as int;
        let now = now_ms as int;
        lemma_fundamental_div_mod(now, w);
        assert(bucket_start(now, w) == w * (now / w)) by (nonlinear_arith);
        assert((target_count - 1) * w >= 0) by (nonlinear_arith)
            requires
                target_count >= 1,
                w > 0,
        ;
        assert((target_count - 1) * w <= 0xffff_ffff_ffff_ffff * 0x7fff_ffff_ffff_ffff)
            by (nonlinear_arith)
            requires
                0 <= target_count - 1 <= 0xffff_ffff_ffff_ffff,
                0 < w <= 0x7fff_ffff_ffff_ffff,
        ;
    }
    let span: i128 = ((target_count - 1) as i128) * (interval_ms as i128);
    end - span >= i64::MIN as i128
}

/// Lays out the reply to a history request where that can be done, as
/// [`fill_kline_gaps`] does; `None` where the interval is not positive, no
/// slot is asked for, or the window would begin before the earliest time of
/// the type.
pub fn try_fill_kline_gaps(times: &Vec<i64>, interval_ms: i64, now_ms: i64, target_count: usize) -> (r:
    Option<GapFill>)
    ensures
        (r is Some) == window_fits_spec(now_ms as int, interval_ms as int, target_count as int),
        r is Some ==> {
            &&& r->0.slots.len() == target_count
            &&& r->0.slots@[target_count - 1].time == bucket_start(
                now_ms as int,
                interval_ms as int,
            )
            &&& forall|i: int|
                0 <= i < target_count ==> {
                    &&& (#[trigger] r->0.slots@[i]).time == slot_time(
                        now_ms as int,
                        interval_ms as int,
                        target_count as int,
                        i,
                    )
                    &&& match r->0.slots@[i].source {
                        Some(j) => find_last(times@, r->0.slots@[i].time as int) == Some(
                            j as int,
                        ) && j < times.len(),
                        None => find_last(times@, r->0.slots@[i].time as int) is None,
                    }
                    &&& match r->0.slots@[i].close_from {
                        Some(j) => carried(
                            times@,
                            now_ms as int,
                            interval_ms as int,
                            target_count as int,
                            i,
                        ) == Some(j as int) && j < times.len(),
                        None => carried(
                            times@,
                            now_ms as int,
                            interval_ms as int,
                            target_count as int,
                            i,
                        ) is None,
                    }
                }
            &&& seed_ok(times@, r->0.seed)
        },
{
    if window_fits(now_ms, interval_ms, target_count) {
        Some(fill_kline_gaps(times, interval_ms, now_ms, target_count))
    } else {
        None
    }
}

/// Builds the reply to a history request where its window can be laid out,
/// as [`fill_candles`] does; `None` where the interval is not positive, no
/// candle is asked for, or the window would begin before the earliest time
/// of the type.
pub fn try_fill_candles<P: Copy>(
    raw: &Vec<Candle<P>>,
    interval_ms: i64,
    now_ms: i64,
    target_count: usize,
    seed: P,
    zero: P,
) -> (r: Option<Vec<Candle<P>>>)
    ensures
        (r is Some) == window_fits_spec(now_ms as int, interval_ms as int, target_count as int),
        r is Some ==> {
            &&& r->0.len() == target_count
            &&& r->0@[target_count - 1].time == bucket_start(now_ms as int, interval_ms as int)
            &&& forall|i: int|
                0 <= i < target_count ==> {
                    &&& #[trigger] r->0@[i] == reply_candle(
                        raw@,
                        now_ms as int,
                        interval_ms as int,
                        target_count as int,
                        i,
                        seed,
                        zero,
                    )
                    &&& r->0@[i].time == slot_time(
                        now_ms as int,
                        interval_ms as int,
                        target_count as int,
                        i,
                    )
                }
        },
{
    if window_fits(now_ms, interval_ms, target_count) {
        Some(fill_candles(raw, interval_ms, now_ms, target_count, seed, zero))
    } else {
        None
    }
}

// ---------------------------------------------------------------------------
// Requests to the candle service
// ---------------------------------------------------------------------------

/// The name that the candle service knows a chain by: `solana` for `sol` in
/// any case, else the chain as the client wrote it.
pub open spec fn platform_spec(chain: Seq<char>) -> Seq<char> {
    if eq_ignore_ascii_case_spec(chain, "SOL"@) {
        "solana"@
    } else {
        chain
    }
}

/// The address of the candle service's endpoint.
pub open spec fn candles_endpoint() -> Seq<char> {
    "https://dquery.sintral.io/u-kline/v1/k-line/candles"@
}

/// The URL of a request for the `limit` newest candles of a token.
pub open spec fn history_url_spec(
    address: Seq<char>,
    chain: Seq<char>,
    interval: Seq<char>,
    limit: int,
) -> Seq<char> {
    candles_endpoint() + "?address="@ + address + "&interval="@ + api_interval_spec(interval)
        + "&limit="@ + decimal_int(limit) + "&platform="@ + platform_spec(chain)
}

/// Writes the URL of a request to the candle service.
pub fn history_url(address: &str, chain: &str, interval: &str, limit: i64) -> (r: String)
    ensures
        r@ == history_url_spec(address@, chain@, interval@, limit as int),
{
    let mut s = String::from_str("https://dquery.sintral.io/u-kline/v1/k-line/candles");
    s.append("?address=");
    s.append(address);
    s.append("&interval=");
    let formatted = format_interval_for_api(interval);
    s.append(formatted.as_str());
    s.append("&limit=");
    append_i64(&mut s, limit);
    s.append("&platform=");
    if eq_ignore_ascii_case(chain, "SOL") {
        s.append("solana");
    } else {
        s.append(chain);
    }
    s
}

} // verus!
