//! Lists of strings in which nothing occurs twice, used where membership is
//! all that matters.

use vstd::prelude::*;
use vstd::string::*;
use crate::text::{same_text, texts};

verus! {

/// Offset of `x` in `v`, if it occurs.
pub fn position(v: &Vec<String>, x: &str) -> (r: Option<usize>)
    ensures
        match r {
            Some(i) => i < v.len() && v@[i as int]@ == x@,
            None => !texts(v@).contains(x@),
        },
{
    let mut i: usize = 0;
    while i < v.len()
        invariant
            i <= v.len(),
            forall|j: int| 0 <= j < i ==> (#[trigger] v@[j])@ != x@,
        decreases v.len() - i,
    {
        if same_text(v[i].as_str(), x) {
            return Some(i);
        }
        i += 1;
    }
    assert forall|j: int| 0 <= j < texts(v@).len() implies texts(v@)[j] != x@ by {
        assert(texts(v@)[j] == v@[j]@);
    }
    None
}

/// Tests whether `x` occurs in `v`.
pub fn has(v: &Vec<String>, x: &str) -> (r: bool)
    ensures
        r == texts(v@).contains(x@),
{
    match position(v, x) {
        Some(i) => {
            assert(texts(v@)[i as int] == x@);
            true
        },
        None => false,
    }
}

/// Adds `x` to `v` unless it is there already; tells whether it was added.
pub fn add(v: &mut Vec<String>, x: String) -> (added: bool)
    requires
        texts(old(v)@).no_duplicates(),
    ensures
        texts(final(v)@).no_duplicates(),
        texts(final(v)@).to_set() == texts(old(v)@).to_set().insert(x@),
        added == !texts(old(v)@).contains(x@),
        added ==> texts(final(v)@) == texts(old(v)@).push(x@),
        !added ==> texts(final(v)@) == texts(old(v)@),
{
    if has(v, x.as_str()) {
        assert(texts(v@).to_set() =~= texts(v@).to_set().insert(x@));
        false
    } else {
        let ghost before = texts(v@);
        let ghost item = x@;
        v.push(x);
        proof {
            assert(texts(v@) =~= before.push(item));
            assert(before.push(item).to_set() =~= before.to_set().insert(item)) by {
                assert forall|e: Seq<char>|
                    before.push(item).to_set().contains(e) == before.to_set().insert(
                        item,
                    ).contains(e) by {
                    if before.push(item).contains(e) {
                        let j = choose|j: int|
                            0 <= j < before.push(item).len() && before.push(item)[j] == e;
                        if j < before.len() {
                            assert(before[j] == e);
                        }
                    }
                    if before.contains(e) {
                        let j = choose|j: int| 0 <= j < before.len() && before[j] == e;
                        assert(before.push(item)[j] == e);
                    }
                    if e == item {
                        assert(before.push(item)[before.len() as int] == e);
                    }
                }
            }
        }
        true
    }
}

/// Takes `x` out of `v`; tells whether it was there.
pub fn discard(v: &mut Vec<String>, x: &str) -> (removed: bool)
    requires
        texts(old(v)@).no_duplicates(),
    ensures
        texts(final(v)@).no_duplicates(),
        texts(final(v)@).to_set() == texts(old(v)@).to_set().remove(x@),
        removed == texts(old(v)@).contains(x@),
        !removed ==> texts(final(v)@) == texts(old(v)@),
        removed ==> final(v)@.len() + 1 == old(v)@.len(),
{
    match position(v, x) {
        Some(i) => {
            let ghost before = texts(v@);
            assert(before[i as int] == x@);
            v.remove(i);
            proof {
                let after = texts(v@);
                assert(after =~= before.remove(i as int));
                assert forall|a: int, b: int|
                    0 <= a < after.len() && 0 <= b < after.len() && a != b implies after[a]
                    != after[b] by {
                    let a0 = if a < i { a } else { a + 1 };
                    let b0 = if b < i { b } else { b + 1 };
                    assert(after[a] == before[a0]);
                    assert(after[b] == before[b0]);
                }
                assert forall|e: Seq<char>|
                    after.to_set().contains(e) == before.to_set().remove(x@).contains(e) by {
                    if after.contains(e) {
                        let j = choose|j: int| 0 <= j < after.len() && after[j] == e;
                        let j0 = if j < i { j } else { j + 1 };
                        assert(before[j0] == e);
                        assert(j0 != i);
                    }
                    if before.contains(e) && e != x@ {
                        let j = choose|j: int| 0 <= j < before.len() && before[j] == e;
                        let j1 = if j < i { j } else { j - 1 };
                        assert(after[j1] == e);
                    }
                }
                assert(after.to_set() =~= before.to_set().remove(x@));
            }
            true
        },
        None => {
            assert(texts(v@).to_set() =~= texts(v@).to_set().remove(x@));
            false
        },
    }
}

} // verus!
