//! Times: the seconds of a candle, the bucket of a liquidity sample, and
//! what the calendar accepts.

use vstd::prelude::*;
use vstd::string::*;
use chrono::DateTime;
use crate::decimal::{parse_i64, parse_i64_spec};

verus! {

/// Whether the calendar has a date and time for `secs` seconds after the
/// start of 1970 in UTC.
pub uninterp spec fn calendar_accepts(secs: int) -> bool;

/// The seconds of the calendar time that stands `secs` seconds after the
/// start of 1970, if there is one.
///
/// Trusted: `chrono::DateTime::from_timestamp` with no nanoseconds, read back
/// with `DateTime::timestamp`. The crate documents that the two round-trip:
/// where a time comes back, it is `secs`. It comes back unless `secs` is out
/// of the calendar's range, which is named here and not restated.
#[verifier::external_body]
pub(crate) fn calendar_seconds(secs: i64) -> (r: Option<i64>)
    ensures
        r is Some == calendar_accepts(secs as int),
        r is Some ==> r->0 == secs,
{
    DateTime::from_timestamp(secs, 0).map(|t| t.timestamp())
}

/// `a / b` rounded towards zero, for a positive `b`.
pub open spec fn div_to_zero(a: int, b: int) -> int {
    if a >= 0 {
        a / b
    } else {
        -((-a) / b)
    }
}

/// The largest multiple of `width` that is not above `t`, for a positive
/// `width`.
pub open spec fn bucket_start(t: int, width: int) -> int {
    (t / width) * width
}

/// The time of a candle, in seconds, for a time given in milliseconds: the
/// milliseconds are cut off, and a time that the calendar does not accept
/// counts as the start of 1970.
pub open spec fn candle_seconds_spec(ms: int) -> int {
    let secs = div_to_zero(ms, 1000);
    if calendar_accepts(secs) {
        secs
    } else {
        0
    }
}

/// Divides by a thousand, rounding towards zero.
fn thousandth(ms: i64) -> (secs: i64)
    ensures
        secs == div_to_zero(ms as int, 1000),
{
    if ms >= 0 {
        ms / 1000
    } else if ms == i64::MIN {
        -9223372036854775i64
    } else {
        -((-ms) / 1000)
    }
}

/// The time of a candle, in seconds, for a time in milliseconds.
pub fn candle_seconds(ms: i64) -> (secs: i64)
    ensures
        secs == candle_seconds_spec(ms as int),
{
    match calendar_seconds(thousandth(ms)) {
        Some(s) => s,
        None => 0,
    }
}

/// The time of a candle for a time in milliseconds that arrives as text; a
/// text that is no number counts as 0.
pub fn candle_seconds_of_text(ms: &str) -> (secs: i64)
    ensures
        secs == candle_seconds_spec(
            match parse_i64_spec(ms@) {
                Some(v) => v,
                None => 0,
            },
        ),
{
    let v: i64 = match parse_i64(ms) {
        Some(v) => v,
        None => 0,
    };
    candle_seconds(v)
}

/// The seconds of a stored candle read back from the database; a value that
/// the calendar does not accept counts as the start of 1970.
pub fn stored_seconds(secs: i64) -> (r: i64)
    ensures
        r == (if calendar_accepts(secs as int) { secs as int } else { 0 }),
{
    match calendar_seconds(secs) {
        Some(s) => s,
        None => 0,
    }
}

/// Floor of `t / width` times `width`, computed without leaving the range of
/// the type.
pub fn bucket_of(t: i64, width: i64) -> (r: i64)
    requires
        width > 0,
        bucket_start(t as int, width as int) >= i64::MIN,
    ensures
        r == bucket_start(t as int, width as int),
{
    let rem: i64 = euclid_rem(t, width);
    proof {
        vstd::arithmetic::div_mod::lemma_fundamental_div_mod(t as int, width as int);
        assert((t as int / width as int) * (width as int) == (width as int) * (t as int
            / width as int)) by (nonlinear_arith);
    }
    t - rem
}

/// The remainder of `t` by `width` that lies in `0..width`.
pub fn euclid_rem(t: i64, width: i64) -> (r: i64)
    requires
        width > 0,
    ensures
        r == (t as int) % (width as int),
        0 <= r < width,
{
    if t >= 0 {
        t % width
    } else {
        // -(t + 1) is a non-negative number of the type
        let m: i64 = -(t + 1);
        let k: i64 = m % width;
        proof {
            // t = -(m + 1), so t mod width = width - 1 - (m mod width)
            let w = width as int;
            let mi = m as int;
            vstd::arithmetic::div_mod::lemma_fundamental_div_mod(mi, w);
            let q = mi / w;
            assert(mi == w * q + k);
            assert((t as int) == w * (-q - 1) + (w - 1 - k)) by (nonlinear_arith)
                requires
                    t as int == -(mi + 1),
                    mi == w * q + k,
            ;
            vstd::arithmetic::div_mod::lemma_fundamental_div_mod_converse(
                t as int,
                w,
                -q - 1,
                w - 1 - k,
            );
        }
        width - 1 - k
    }
}

/// Seconds in a minute, the width of a liquidity bucket.
pub const MINUTE: i64 = 60;

/// Seconds for which liquidity samples are kept.
pub const LIQUIDITY_HORIZON: i64 = 86_400;

/// The bucket of a liquidity sample taken at `now_secs`: the start of its
/// minute.
pub fn minute_bucket(now_secs: i64) -> (r: i64)
    requires
        now_secs >= i64::MIN + 60,
    ensures
        r == bucket_start(now_secs as int, 60),
{
    bucket_of(now_secs, MINUTE)
}

/// The time before which liquidity samples are dropped: a day before
/// `now_secs`; the earliest time of the type where that is out of range.
pub fn liquidity_cutoff(now_secs: i64) -> (r: i64)
    ensures
        r == (if now_secs - 86_400 >= i64::MIN { now_secs - 86_400 } else { i64::MIN as int }),
{
    if now_secs >= i64::MIN + LIQUIDITY_HORIZON {
        now_secs - LIQUIDITY_HORIZON
    } else {
        i64::MIN
    }
}

} // verus!
