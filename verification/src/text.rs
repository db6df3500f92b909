//! Text primitives that the key grammar and the frame parsers are built from.
//!
//! Strings are reasoned about as sequences of characters. Each executable
//! function here comes with a specification function that says what it
//! computes; callers state their own contracts over those.

use vstd::prelude::*;
use vstd::string::*;

verus! {

// ---------------------------------------------------------------------------
// Conversions between strings and character vectors
// ---------------------------------------------------------------------------

/// Appends one character to a string.
///
/// Trusted: `String::push`. The claim is that the characters of the string
/// afterwards are those before, followed by `c`.
#[verifier::external_body]
pub(crate) fn push_char(s: &mut String, c: char)
    ensures
        final(s)@ == old(s)@.push(c),
{
    s.push(c)
}

/// The characters of `s`, in order.
pub fn chars_of(s: &str) -> (v: Vec<char>)
    ensures
        v@ == s@,
{
    let mut v: Vec<char> = Vec::new();
    for c in it: s.chars()
        invariant
            v@ == it.seq().take(it.index() as int),
    {
        v.push(c);
    }
    v
}

/// The string made of the characters `v[from..to]`.
pub fn string_of_range(v: &Vec<char>, from: usize, to: usize) -> (s: String)
    requires
        from <= to <= v.len(),
    ensures
        s@ == v@.subrange(from as int, to as int),
{
    let mut s = String::new();
    let mut i: usize = from;
    while i < to
        invariant
            from <= i <= to <= v.len(),
            s@ == v@.subrange(from as int, i as int),
        decreases to - i,
    {
        push_char(&mut s, v[i]);
        i += 1;
        assert(s@ =~= v@.subrange(from as int, i as int));
    }
    s
}

/// The string made of the characters of `v`.
pub fn string_of(v: &Vec<char>) -> (s: String)
    ensures
        s@ == v@,
{
    let s = string_of_range(v, 0, v.len());
    assert(v@.subrange(0, v.len() as int) =~= v@);
    s
}

/// The character sequences of a sequence of strings.
pub open spec fn texts(v: Seq<String>) -> Seq<Seq<char>> {
    Seq::new(v.len(), |i: int| v[i]@)
}

/// The character sequences of a sequence of character vectors.
pub open spec fn rows(v: Seq<Vec<char>>) -> Seq<Seq<char>> {
    Seq::new(v.len(), |i: int| v[i]@)
}

// ---------------------------------------------------------------------------
// Case
// ---------------------------------------------------------------------------

/// `c` with the letters `A` to `Z` mapped to `a` to `z`.
pub open spec fn ascii_lower(c: char) -> char {
    if 'A' <= c && c <= 'Z' {
        ((c as u8 + 32) as u8) as char
    } else {
        c
    }
}

/// Every character of `s` is an ASCII character.
pub open spec fn all_ascii(s: Seq<char>) -> bool {
    forall|i: int| 0 <= i < s.len() ==> (#[trigger] s[i]) as u32 <= 127
}

/// `s` with each of the letters `A` to `Z` mapped to its small letter.
pub open spec fn ascii_lowered(s: Seq<char>) -> Seq<char> {
    Seq::new(s.len(), |i: int| ascii_lower(s[i]))
}

/// The lower-case form of a text under the Unicode case mapping.
pub uninterp spec fn unicode_lowercase_of(s: Seq<char>) -> Seq<char>;

/// The lower-case form of a text: for a text of ASCII characters, the text
/// with `A` to `Z` mapped to `a` to `z`; for any other, what the Unicode case
/// mapping gives.
pub open spec fn lowercase_of(s: Seq<char>) -> Seq<char> {
    if all_ascii(s) {
        ascii_lowered(s)
    } else {
        unicode_lowercase_of(s)
    }
}

/// Lower-cases a string under the Unicode case mapping.
///
/// Trusted: `str::to_lowercase`. The mapping is a function of the text
/// alone and is named. On ASCII characters it is the mapping of `A` to `Z`
/// to `a` to `z` and leaves every other character as it is, which is stated
/// for texts that hold nothing else.
#[verifier::external_body]
fn unicode_lowercase(s: &str) -> (r: String)
    ensures
        r@ == unicode_lowercase_of(s@),
        all_ascii(s@) ==> r@ == ascii_lowered(s@),
{
    s.to_lowercase()
}

/// A text of ASCII characters without capital letters is its own lower-case
/// form.
pub proof fn lemma_lowercase_of_small(s: Seq<char>)
    requires
        all_ascii(s),
        forall|i: int| 0 <= i < s.len() ==> !('A' <= #[trigger] s[i] && s[i] <= 'Z'),
    ensures
        lowercase_of(s) == s,
{
    assert(ascii_lowered(s) =~= s);
}

/// Lower-cases a string.
pub fn lowercase(s: &str) -> (r: String)
    ensures
        r@ == lowercase_of(s@),
{
    unicode_lowercase(s)
}

/// Lower-cases one ASCII letter; every other character is returned as it is.
pub fn to_ascii_lower(c: char) -> (r: char)
    ensures
        r == ascii_lower(c),
{
    if c >= 'A' && c <= 'Z' {
        let b: u8 = c as u8;
        (b + 32) as char
    } else {
        c
    }
}

/// Two texts are equal up to the case of their ASCII letters.
pub open spec fn eq_ignore_ascii_case_spec(a: Seq<char>, b: Seq<char>) -> bool {
    &&& a.len() == b.len()
    &&& forall|i: int| 0 <= i < a.len() ==> ascii_lower(#[trigger] a[i]) == ascii_lower(b[i])
}

/// Compares two strings without regard to the case of ASCII letters.
pub fn eq_ignore_ascii_case(a: &str, b: &str) -> (r: bool)
    ensures
        r == eq_ignore_ascii_case_spec(a@, b@),
{
    let x = chars_of(a);
    let y = chars_of(b);
    if x.len() != y.len() {
        return false;
    }
    let mut i: usize = 0;
    while i < x.len()
        invariant
            x@ == a@,
            y@ == b@,
            x.len() == y.len(),
            i <= x.len(),
            forall|j: int| 0 <= j < i ==> ascii_lower(#[trigger] x@[j]) == ascii_lower(y@[j]),
        decreases x.len() - i,
    {
        if to_ascii_lower(x[i]) != to_ascii_lower(y[i]) {
            return false;
        }
        i += 1;
    }
    true
}

// ---------------------------------------------------------------------------
// Searching
// ---------------------------------------------------------------------------

/// Tests whether two strings hold the same characters.
pub fn same_text(a: &str, b: &str) -> (r: bool)
    ensures
        r == (a@ == b@),
{
    let x = chars_of(a);
    let y = chars_of(b);
    if x.len() != y.len() {
        return false;
    }
    let r = occurs_at_chars(&x, &y, 0);
    assert(x@.subrange(0, x@.len() as int) =~= x@);
    r
}

/// `p` is a prefix of `s`.
pub open spec fn starts_with_spec(s: Seq<char>, p: Seq<char>) -> bool {
    p.len() <= s.len() && s.take(p.len() as int) == p
}

/// `needle` occurs in `hay` at offset `at`.
pub open spec fn occurs_at(hay: Seq<char>, needle: Seq<char>, at: int) -> bool {
    &&& 0 <= at
    &&& at + needle.len() <= hay.len()
    &&& hay.subrange(at, at + needle.len()) == needle
}

/// `needle` occurs somewhere in `hay`.
pub open spec fn contains_spec(hay: Seq<char>, needle: Seq<char>) -> bool {
    exists|at: int| occurs_at(hay, needle, at)
}

/// Tests whether `needle` stands in `hay` at offset `at`.
pub fn occurs_at_chars(hay: &Vec<char>, needle: &Vec<char>, at: usize) -> (r: bool)
    ensures
        r == occurs_at(hay@, needle@, at as int),
{
    if needle.len() > hay.len() || at > hay.len() - needle.len() {
        return false;
    }
    let mut j: usize = 0;
    while j < needle.len()
        invariant
            j <= needle.len(),
            at + needle.len() <= hay.len(),
            forall|k: int| 0 <= k < j ==> hay@[at + k] == needle@[k],
        decreases needle.len() - j,
    {
        if hay[at + j] != needle[j] {
            assert(hay@.subrange(at as int, at + needle.len())[j as int] == hay@[at + j]);
            return false;
        }
        j += 1;
    }
    assert(hay@.subrange(at as int, at + needle.len()) =~= needle@);
    true
}

/// Tests whether `s` begins with `prefix`.
pub fn starts_with(s: &str, prefix: &str) -> (r: bool)
    ensures
        r == starts_with_spec(s@, prefix@),
{
    let x = chars_of(s);
    let p = chars_of(prefix);
    let r = occurs_at_chars(&x, &p, 0);
    assert(x@.take(p@.len() as int) == x@.subrange(0, p@.len() as int));
    r
}

/// Tests whether `needle` occurs in `hay`.
pub fn contains(hay: &str, needle: &str) -> (r: bool)
    ensures
        r == contains_spec(hay@, needle@),
{
    let h = chars_of(hay);
    let n = chars_of(needle);
    if n.len() > h.len() {
        return false;
    }
    let last: usize = h.len() - n.len();
    let mut at: usize = 0;
    loop
        invariant
            h@ == hay@,
            n@ == needle@,
            last == h.len() - n.len(),
            at <= last,
            forall|k: int| 0 <= k < at ==> !occurs_at(h@, n@, k),
        decreases last - at,
    {
        if occurs_at_chars(&h, &n, at) {
            return true;
        }
        if at == last {
            return false;
        }
        at += 1;
    }
}

// ---------------------------------------------------------------------------
// Splitting on a separator
// ---------------------------------------------------------------------------

/// No character of `s` is `sep`.
pub open spec fn free_of(s: Seq<char>, sep: char) -> bool {
    forall|i: int| 0 <= i < s.len() ==> #[trigger] s[i] != sep
}

/// Offset of the first `sep` in `s`, or the length of `s` where there is none.
pub open spec fn first_sep(s: Seq<char>, sep: char) -> int
    decreases s.len(),
{
    if s.len() == 0 || s[0] == sep {
        0
    } else {
        1 + first_sep(s.drop_first(), sep)
    }
}

/// The pieces of `s` between occurrences of `sep`, empty pieces included: a
/// text with `n` separators has `n + 1` pieces.
pub open spec fn split_spec(s: Seq<char>, sep: char) -> Seq<Seq<char>>
    decreases s.len(),
{
    let i = first_sep(s, sep);
    if 0 <= i < s.len() {
        seq![s.take(i)] + split_spec(s.skip(i + 1), sep)
    } else {
        seq![s]
    }
}

/// `first_sep` is the least offset that holds `sep`.
pub proof fn lemma_first_sep(s: Seq<char>, sep: char)
    ensures
        0 <= first_sep(s, sep) <= s.len(),
        free_of(s.take(first_sep(s, sep)), sep),
        first_sep(s, sep) < s.len() ==> s[first_sep(s, sep)] == sep,
    decreases s.len(),
{
    if s.len() == 0 || s[0] == sep {
    } else {
        let t = s.drop_first();
        lemma_first_sep(t, sep);
        let k = first_sep(t, sep);
        assert forall|i: int| 0 <= i < k + 1 implies #[trigger] s.take(k + 1)[i] != sep by {
            if i > 0 {
                assert(t.take(k)[i - 1] != sep);
            }
        }
    }
}

/// An offset that holds `sep` and has none before it is `first_sep`.
pub proof fn lemma_first_sep_is(s: Seq<char>, sep: char, k: int)
    requires
        0 <= k <= s.len(),
        free_of(s.take(k), sep),
        k < s.len() ==> s[k] == sep,
    ensures
        first_sep(s, sep) == k,
    decreases s.len(),
{
    if s.len() == 0 {
    } else if s[0] == sep {
        if k > 0 {
            assert(s.take(k)[0] == sep);
        }
    } else {
        let t = s.drop_first();
        assert(k > 0);
        assert forall|i: int| 0 <= i < k - 1 implies #[trigger] t.take(k - 1)[i] != sep by {
            assert(s.take(k)[i + 1] != sep);
        }
        lemma_first_sep_is(t, sep, k - 1);
    }
}

/// A text without the separator is its own single piece.
pub proof fn lemma_split_free(s: Seq<char>, sep: char)
    requires
        free_of(s, sep),
    ensures
        split_spec(s, sep) == seq![s],
{
    assert(s.take(s.len() as int) =~= s);
    lemma_first_sep_is(s, sep, s.len() as int);
}

/// Splitting `head`, a separator and `rest` gives `head`, then the pieces of
/// `rest`, where `head` holds no separator.
pub proof fn lemma_split_cons(head: Seq<char>, rest: Seq<char>, sep: char)
    requires
        free_of(head, sep),
    ensures
        split_spec(head + seq![sep] + rest, sep) == seq![head] + split_spec(rest, sep),
{
    let s = head + seq![sep] + rest;
    let k = head.len() as int;
    assert(s.take(k) =~= head);
    assert(s[k] == sep);
    lemma_first_sep_is(s, sep, k);
    assert(s.skip(k + 1) =~= rest);
}

/// Splits a character vector on `sep`.
pub fn split_chars(s: &Vec<char>, sep: char) -> (parts: Vec<Vec<char>>)
    ensures
        rows(parts@) == split_spec(s@, sep),
{
    let mut parts: Vec<Vec<char>> = Vec::new();
    let mut cur: Vec<char> = Vec::new();
    let mut i: usize = 0;
    let ghost mut start: int = 0;
    proof {
        assert(s@.skip(0) =~= s@);
        assert(rows(parts@) =~= Seq::<Seq<char>>::empty());
    }
    while i < s.len()
        invariant
            0 <= start <= i <= s.len(),
            cur@ == s@.subrange(start, i as int),
            free_of(cur@, sep),
            split_spec(s@, sep) == rows(parts@) + split_spec(s@.skip(start), sep),
        decreases s.len() - i,
    {
        let c = s[i];
        if c == sep {
            proof {
                let t = s@.skip(start);
                let k = i - start;
                assert(t.take(k) =~= cur@);
                lemma_first_sep_is(t, sep, k);
                assert(t.skip(k + 1) =~= s@.skip(i + 1));
                assert(rows(parts@).push(cur@) + split_spec(s@.skip(i + 1), sep)
                    =~= rows(parts@) + (seq![cur@] + split_spec(s@.skip(i + 1), sep)));
            }
            let ghost before = rows(parts@);
            let ghost piece = cur@;
            parts.push(cur);
            proof {
                assert(rows(parts@) =~= before.push(piece));
                start = i + 1;
            }
            cur = Vec::new();
            assert(cur@ =~= s@.subrange(start, i + 1));
        } else {
            cur.push(c);
            assert(cur@ =~= s@.subrange(start, i + 1));
        }
        i += 1;
    }
    proof {
        let t = s@.skip(start);
        assert(t =~= cur@);
        lemma_split_free(t, sep);
        assert(rows(parts@).push(cur@) =~= rows(parts@) + seq![cur@]);
    }
    let ghost before = rows(parts@);
    let ghost piece = cur@;
    parts.push(cur);
    assert(rows(parts@) =~= before.push(piece));
    parts
}

/// Splits a string on `sep`, as `str::split` with a character does.
pub fn split(s: &str, sep: char) -> (parts: Vec<String>)
    ensures
        texts(parts@) == split_spec(s@, sep),
{
    let cs = chars_of(s);
    let pieces = split_chars(&cs, sep);
    let mut parts: Vec<String> = Vec::new();
    let mut i: usize = 0;
    while i < pieces.len()
        invariant
            i <= pieces.len(),
            parts.len() == i,
            forall|j: int| 0 <= j < i ==> (#[trigger] parts@[j])@ == pieces@[j]@,
        decreases pieces.len() - i,
    {
        let piece = string_of(&pieces[i]);
        parts.push(piece);
        i += 1;
    }
    assert(texts(parts@) =~= rows(pieces@));
    parts
}

} // verus!
