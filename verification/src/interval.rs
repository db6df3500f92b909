//! Candle intervals as the clients name them: `1m`, `15m`, `1h`, `1d`.

use vstd::prelude::*;
use vstd::string::*;
use crate::decimal::{all_digits, is_ascii_digit, is_digit, parse_i64, parse_i64_spec};
use crate::text::{chars_of, same_text, string_of_range};

verus! {

/// Length of the run of digits that `s` begins with.
pub open spec fn digit_run(s: Seq<char>) -> int
    decreases s.len(),
{
    if s.len() == 0 || !is_digit(s[0]) {
        0
    } else {
        1 + digit_run(s.drop_first())
    }
}

/// Milliseconds of the unit of an interval: a minute for `m`, an hour for
/// `h`, a day for `d`; 0 for anything else.
pub open spec fn unit_ms(unit: Seq<char>) -> int {
    if unit == "m"@ {
        60_000
    } else if unit == "h"@ {
        3_600_000
    } else if unit == "d"@ {
        86_400_000
    } else {
        0
    }
}

/// The count that an interval begins with: the number that its leading
/// digits denote; 0 where there are none or the number is out of range.
pub open spec fn interval_count(s: Seq<char>) -> int {
    match parse_i64_spec(s.take(digit_run(s))) {
        Some(v) => v,
        None => 0,
    }
}

/// Milliseconds of an interval: its count times its unit, where the unit is
/// all that follows the count. An unknown unit gives 0, and so does a length
/// that is out of range.
pub open spec fn interval_ms_spec(s: Seq<char>) -> int {
    let ms = interval_count(s) * unit_ms(s.skip(digit_run(s)));
    if ms <= i64::MAX {
        ms
    } else {
        0
    }
}

/// An offset before which all is digits and at which a digit does not stand
/// is the length of the leading run of digits.
pub proof fn lemma_digit_run_is(s: Seq<char>, k: int)
    requires
        0 <= k <= s.len(),
        all_digits(s.take(k)),
        k < s.len() ==> !is_digit(s[k]),
    ensures
        digit_run(s) == k,
    decreases s.len(),
{
    if s.len() == 0 {
    } else if !is_digit(s[0]) {
        if k > 0 {
            assert(s.take(k)[0] == s[0]);
        }
    } else {
        let t = s.drop_first();
        assert(k > 0);
        assert forall|i: int| 0 <= i < k - 1 implies is_digit(#[trigger] t.take(k - 1)[i]) by {
            assert(s.take(k)[i + 1] == t.take(k - 1)[i]);
        }
        lemma_digit_run_is(t, k - 1);
    }
}

/// The unit of an interval in milliseconds.
fn unit_of(unit: &str) -> (r: i64)
    ensures
        r == unit_ms(unit@),
{
    if same_text(unit, "m") {
        60_000
    } else if same_text(unit, "h") {
        3_600_000
    } else if same_text(unit, "d") {
        86_400_000
    } else {
        0
    }
}

/// The length of an interval in milliseconds; 0 for an interval that is not
/// a count followed by `m`, `h` or `d`.
pub fn interval_to_ms(i: &str) -> (r: i64)
    ensures
        r == interval_ms_spec(i@),
        r >= 0,
{
    let cs = chars_of(i);
    let mut k: usize = 0;
    while k < cs.len() && is_ascii_digit(cs[k])
        invariant
            k <= cs.len(),
            all_digits(cs@.take(k as int)),
        decreases cs.len() - k,
    {
        k += 1;
        assert forall|j: int| 0 <= j < k implies is_digit(#[trigger] cs@.take(k as int)[j]) by {
            if j < k - 1 {
                assert(cs@.take(k - 1)[j] == cs@.take(k as int)[j]);
            }
        }
    }
    proof {
        lemma_digit_run_is(cs@, k as int);
        assert(cs@.take(k as int) =~= cs@.subrange(0, k as int));
        assert(cs@.skip(k as int) =~= cs@.subrange(k as int, cs.len() as int));
    }
    let digits = string_of_range(&cs, 0, k);
    let unit = string_of_range(&cs, k, cs.len());
    let count: i64 = match parse_i64(digits.as_str()) {
        Some(v) => v,
        None => 0,
    };
    proof {
        // a run of digits has no sign, so its value is not negative
        if parse_i64_spec(digits@) is Some {
            if digits@.len() > 0 {
                assert(is_digit(cs@.take(k as int)[0]));
            }
        }
    }
    let per = unit_of(unit.as_str());
    let wide: i128 = (count as i128) * (per as i128);
    assert(count >= 0);
    assert(wide >= 0) by (nonlinear_arith)
        requires
            wide == count * per,
            count >= 0,
            per >= 0,
    ;
    if wide <= i64::MAX as i128 {
        wide as i64
    } else {
        0
    }
}

/// How the candle service writes an interval: minutes as `min`, everything
/// else as the client wrote it.
pub open spec fn api_interval_spec(s: Seq<char>) -> Seq<char> {
    if s.len() > 0 && s.last() == 'm' {
        s.drop_last() + "min"@
    } else {
        s
    }
}

/// Writes an interval for the candle service.
pub fn format_interval_for_api(i: &str) -> (r: String)
    ensures
        r@ == api_interval_spec(i@),
{
    let cs = chars_of(i);
    let n = cs.len();
    if n > 0 && cs[n - 1] == 'm' {
        let mut s = string_of_range(&cs, 0, n - 1);
        assert(cs@.subrange(0, n - 1) =~= cs@.drop_last());
        s.append("min");
        s
    } else {
        String::from_str(i)
    }
}

/// Seconds of the buckets that liquidity samples are gathered into for an
/// interval: 300 for `5m`, 900 for `15m`, 3600 for `1h`, and the sample's
/// own minute for any other.
pub open spec fn liquidity_bucket_spec(interval: Seq<char>) -> int {
    if interval == "5m"@ {
        300
    } else if interval == "15m"@ {
        900
    } else if interval == "1h"@ {
        3600
    } else {
        60
    }
}

/// The width in seconds of the liquidity buckets of an interval.
pub fn liquidity_bucket_secs(interval: &str) -> (r: i64)
    ensures
        r == liquidity_bucket_spec(interval@),
{
    if same_text(interval, "5m") {
        300
    } else if same_text(interval, "15m") {
        900
    } else if same_text(interval, "1h") {
        3600
    } else {
        60
    }
}

} // verus!
