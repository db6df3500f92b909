//! Decimal notation: how integers are written into keys and read back.

use vstd::prelude::*;
use vstd::string::*;
use crate::text::{chars_of, push_char};

verus! {

/// `c` is one of `0` to `9`.
pub open spec fn is_digit(c: char) -> bool {
    '0' <= c && c <= '9'
}

/// The digit character for `d`, where `0 <= d <= 9`.
pub open spec fn digit_char(d: int) -> char {
    ((48 + d) as u8) as char
}

/// The number that a digit character stands for.
pub open spec fn digit_value(c: char) -> int {
    (c as u8) as int - 48
}

/// Every character of `s` is a digit.
pub open spec fn all_digits(s: Seq<char>) -> bool {
    forall|i: int| 0 <= i < s.len() ==> is_digit(#[trigger] s[i])
}

/// Decimal notation of a natural number, without leading zeros.
pub open spec fn decimal_nat(n: nat) -> Seq<char>
    decreases n,
{
    if n < 10 {
        seq![digit_char(n as int)]
    } else {
        decimal_nat(n / 10).push(digit_char((n % 10) as int))
    }
}

/// Decimal notation of an integer: a minus sign before the digits of a
/// negative one.
pub open spec fn decimal_int(v: int) -> Seq<char> {
    if v < 0 {
        seq!['-'] + decimal_nat((-v) as nat)
    } else {
        decimal_nat(v as nat)
    }
}

/// The number that a run of digits denotes; 0 for the empty run.
pub open spec fn digits_value(s: Seq<char>) -> nat
    decreases s.len(),
{
    if s.len() == 0 {
        0
    } else {
        (digits_value(s.drop_last()) * 10 + digit_value(s.last())) as nat
    }
}

/// What reading `s` as a signed 64-bit integer gives: an optional sign, then
/// at least one digit and nothing else, the value within range; `None`
/// otherwise.
pub open spec fn parse_i64_spec(s: Seq<char>) -> Option<int> {
    let signed = s.len() > 0 && (s[0] == '-' || s[0] == '+');
    let negative = s.len() > 0 && s[0] == '-';
    let body = if signed {
        s.drop_first()
    } else {
        s
    };
    let magnitude = digits_value(body) as int;
    let value = if negative {
        -magnitude
    } else {
        magnitude
    };
    if body.len() == 0 || !all_digits(body) || value < i64::MIN || value > i64::MAX {
        None
    } else {
        Some(value)
    }
}

/// The digit character for `d`.
pub fn digit_of(d: u8) -> (c: char)
    requires
        d < 10,
    ensures
        c == digit_char(d as int),
        is_digit(c),
{
    (48 + d) as char
}

/// Writes `n` in decimal notation.
pub fn u64_to_chars(n: u64) -> (out: Vec<char>)
    ensures
        out@ == decimal_nat(n as nat),
{
    let mut out: Vec<char> = Vec::new();
    let mut cur: u64 = n;
    while cur >= 10
        invariant
            decimal_nat(n as nat) == decimal_nat(cur as nat) + out@,
        decreases cur,
    {
        let d: u8 = (cur % 10) as u8;
        let ghost before = out@;
        out.insert(0, digit_of(d));
        proof {
            assert(out@ =~= seq![digit_char(d as int)] + before);
            assert(decimal_nat(cur as nat) == decimal_nat((cur / 10) as nat).push(
                digit_char(d as int),
            ));
            assert(decimal_nat((cur / 10) as nat).push(digit_char(d as int)) + before
                =~= decimal_nat((cur / 10) as nat) + out@);
        }
        cur = cur / 10;
    }
    let ghost before = out@;
    out.insert(0, digit_of(cur as u8));
    assert(out@ =~= decimal_nat(cur as nat) + before);
    out
}

/// Writes `v` in decimal notation, as formatting with `{}` does.
pub fn i64_to_chars(v: i64) -> (out: Vec<char>)
    ensures
        out@ == decimal_int(v as int),
{
    if v < 0 {
        let magnitude: u64 = if v == i64::MIN {
            9223372036854775808u64
        } else {
            (-v) as u64
        };
        let mut out = u64_to_chars(magnitude);
        let ghost digits = out@;
        out.insert(0, '-');
        assert(out@ =~= seq!['-'] + digits);
        out
    } else {
        u64_to_chars(v as u64)
    }
}

/// Appends the decimal notation of `v` to `s`.
pub fn append_i64(s: &mut String, v: i64)
    ensures
        final(s)@ == old(s)@ + decimal_int(v as int),
{
    let digits = i64_to_chars(v);
    let mut i: usize = 0;
    while i < digits.len()
        invariant
            i <= digits.len(),
            s@ == old(s)@ + digits@.take(i as int),
        decreases digits.len() - i,
    {
        push_char(s, digits[i]);
        i += 1;
        assert(s@ =~= old(s)@ + digits@.take(i as int));
    }
    assert(digits@.take(digits.len() as int) =~= digits@);
}

/// The value of a digit character.
pub fn value_of_digit(c: char) -> (d: u8)
    requires
        is_digit(c),
    ensures
        d == digit_value(c),
        d < 10,
{
    (c as u8) - 48
}

/// Tests whether `c` is one of `0` to `9`.
pub fn is_ascii_digit(c: char) -> (r: bool)
    ensures
        r == is_digit(c),
{
    c >= '0' && c <= '9'
}

/// Reads the digits `s[from..]` as a magnitude of at most `limit`; `None`
/// where a character is no digit, the run is empty, or the value is larger.
pub fn parse_magnitude(s: &Vec<char>, from: usize, limit: u64) -> (r: Option<u64>)
    requires
        from <= s.len(),
    ensures
        match r {
            Some(v) => {
                &&& from < s.len()
                &&& all_digits(s@.skip(from as int))
                &&& v == digits_value(s@.skip(from as int))
                &&& v <= limit
            },
            None => {
                ||| from == s.len()
                ||| !all_digits(s@.skip(from as int))
                ||| digits_value(s@.skip(from as int)) > limit
            },
        },
{
    let ghost body = s@.skip(from as int);
    if from == s.len() {
        return None;
    }
    let mut acc: u64 = 0;
    let mut over: bool = false;
    let mut i: usize = from;
    assert(body.take(0) =~= Seq::<char>::empty());
    while i < s.len()
        invariant
            from <= i <= s.len(),
            body == s@.skip(from as int),
            all_digits(body.take(i - from)),
            !over ==> acc == digits_value(body.take(i - from)) && acc <= limit,
            over ==> digits_value(body.take(i - from)) > limit,
        decreases s.len() - i,
    {
        let c = s[i];
        let ghost prefix = body.take(i - from);
        let ghost next = body.take(i - from + 1);
        proof {
            assert(next.drop_last() =~= prefix);
            assert(next.last() == c);
        }
        if !is_ascii_digit(c) {
            proof {
                assert(body[i - from] == c);
                assert(!is_digit(body[i - from]));
            }
            return None;
        }
        assert(all_digits(next)) by {
            assert forall|j: int| 0 <= j < next.len() implies is_digit(#[trigger] next[j]) by {
                if j < prefix.len() {
                    assert(next[j] == prefix[j]);
                }
            }
        }
        let d: u64 = value_of_digit(c) as u64;
        if !over {
            let wide: u128 = (acc as u128) * 10 + (d as u128);
            if wide > limit as u128 {
                over = true;
            } else {
                acc = wide as u64;
            }
        }
        i += 1;
    }
    assert(body.take(body.len() as int) =~= body);
    if over {
        None
    } else {
        Some(acc)
    }
}

/// Reads a signed 64-bit integer, as `str::parse::<i64>` does.
pub fn parse_i64(s: &str) -> (r: Option<i64>)
    ensures
        match r {
            Some(v) => parse_i64_spec(s@) == Some(v as int),
            None => parse_i64_spec(s@) is None,
        },
{
    let cs = chars_of(s);
    if cs.len() == 0 {
        return None;
    }
    let first = cs[0];
    let signed = first == '-' || first == '+';
    let from: usize = if signed {
        1
    } else {
        0
    };
    assert(cs@.skip(0) =~= cs@);
    assert(cs@.skip(1) =~= cs@.drop_first());
    if first == '-' {
        match parse_magnitude(&cs, from, 9223372036854775808u64) {
            Some(m) => {
                if m == 9223372036854775808u64 {
                    Some(i64::MIN)
                } else {
                    Some(-(m as i64))
                }
            },
            None => None,
        }
    } else {
        match parse_magnitude(&cs, from, 9223372036854775807u64) {
            Some(m) => Some(m as i64),
            None => None,
        }
    }
}

/// Reading the notation of a natural number gives the number back.
pub proof fn lemma_digits_of_decimal(n: nat)
    ensures
        all_digits(decimal_nat(n)),
        decimal_nat(n).len() >= 1,
        digits_value(decimal_nat(n)) == n,
    decreases n,
{
    if n < 10 {
        let s = decimal_nat(n);
        assert(s.drop_last() =~= Seq::<char>::empty());
        assert(digits_value(s.drop_last()) == 0);
    } else {
        lemma_digits_of_decimal(n / 10);
        let head = decimal_nat(n / 10);
        let s = decimal_nat(n);
        assert(s.drop_last() =~= head);
        assert(s.last() == digit_char((n % 10) as int));
    }
}

/// Reading the notation of a 64-bit integer gives the integer back.
pub proof fn lemma_parse_of_decimal(v: int)
    requires
        i64::MIN <= v <= i64::MAX,
    ensures
        parse_i64_spec(decimal_int(v)) == Some(v),
{
    let s = decimal_int(v);
    if v < 0 {
        let m = (-v) as nat;
        lemma_digits_of_decimal(m);
        assert(s.drop_first() =~= decimal_nat(m));
    } else {
        lemma_digits_of_decimal(v as nat);
        assert(is_digit(s[0]));
    }
}

/// The notation of an integer holds no character other than digits and the
/// minus sign.
pub proof fn lemma_decimal_chars(v: int, c: char)
    requires
        !is_digit(c),
        c != '-',
    ensures
        crate::text::free_of(decimal_int(v), c),
{
    let s = decimal_int(v);
    if v < 0 {
        let m = (-v) as nat;
        lemma_digits_of_decimal(m);
        assert forall|i: int| 0 <= i < s.len() implies #[trigger] s[i] != c by {
            if i > 0 {
                assert(is_digit(decimal_nat(m)[i - 1]));
            }
        }
    } else {
        lemma_digits_of_decimal(v as nat);
        assert forall|i: int| 0 <= i < s.len() implies #[trigger] s[i] != c by {
            assert(is_digit(decimal_nat(v as nat)[i]));
        }
    }
}

} // verus!
