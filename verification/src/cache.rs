//! The image cache's bookkeeping: the names of the files that hold a cached
//! reply, and which entries a sweep deletes when the cache has outgrown its
//! limit.
//!
//! Reading the directory and deleting files is the caller's part. The sweep
//! here is a plan over the caller's list of entries.

use vstd::prelude::*;
use vstd::string::*;
use sha2::Digest;

verus! {

// ---------------------------------------------------------------------------
// File names
// ---------------------------------------------------------------------------

/// The SHA-256 digest of the UTF-8 bytes of a text.
pub uninterp spec fn sha256_of(text: Seq<char>) -> Seq<u8>;

/// Digests a text.
///
/// Trusted: `sha2::Sha256::digest` on the bytes of the text. The digest
/// depends on the text alone; it is named, not restated.
#[verifier::external_body]
fn sha256(text: &str) -> (r: Vec<u8>)
    ensures
        r@ == sha256_of(text@),
{
    sha2::Sha256::digest(text.as_bytes()).to_vec()
}

/// The lower-case hexadecimal digit for `d`, where `0 <= d < 16`.
pub open spec fn hex_digit(d: int) -> char {
    if d < 10 {
        ((48 + d) as u8) as char
    } else {
        ((87 + d) as u8) as char
    }
}

/// Bytes in hexadecimal notation: two lower-case digits for each byte, the
/// high half first.
pub open spec fn hex_of(bytes: Seq<u8>) -> Seq<char>
    decreases bytes.len(),
{
    if bytes.len() == 0 {
        Seq::empty()
    } else {
        hex_of(bytes.drop_last()).push(hex_digit(bytes.last() as int / 16)).push(
            hex_digit(bytes.last() as int % 16),
        )
    }
}

/// Writes bytes in hexadecimal notation.
///
/// Trusted: `hex::encode`, which the crate documents as writing each byte
/// as two lower-case hexadecimal digits.
#[verifier::external_body]
fn hex_encode(bytes: &Vec<u8>) -> (r: String)
    ensures
        r@ == hex_of(bytes@),
{
    hex::encode(bytes)
}

/// The stem of the names of the two files of a URL: the digest of the URL in
/// hexadecimal notation.
pub open spec fn cache_stem_spec(url: Seq<char>) -> Seq<char> {
    hex_of(sha256_of(url))
}

/// The names of the files that hold the cached reply for a URL: the data
/// file and the metadata file.
pub struct CacheNames {
    pub data: String,
    pub meta: String,
}

/// Works out the names of the two files of a URL, without the directory.
pub fn get_cache_paths(url: &str) -> (r: CacheNames)
    ensures
        r.data@ == cache_stem_spec(url@) + ".data"@,
        r.meta@ == cache_stem_spec(url@) + ".meta"@,
{
    let digest = sha256(url);
    let mut data = hex_encode(&digest);
    let mut meta = data.clone();
    data.append(".data");
    meta.append(".meta");
    CacheNames { data, meta }
}

// ---------------------------------------------------------------------------
// The sweep
// ---------------------------------------------------------------------------

/// A cached reply as the sweep sees it.
#[derive(Debug, Clone, Copy, PartialEq, Eq, Structural)]
pub struct CacheEntry {
    /// When the entry was last used, as a time since the start of 1970.
    pub modified: u128,
    /// The size of its data, in bytes.
    pub size: u64,
}

/// Entry `a` goes before entry `b` in a sweep: it was used longer ago, or at
/// the same time and stands earlier in the list.
pub open spec fn goes_before(entries: Seq<CacheEntry>, a: int, b: int) -> bool {
    entries[a].modified < entries[b].modified || (entries[a].modified == entries[b].modified && a
        < b)
}

/// The size of the first `upto` entries together.
pub open spec fn size_of_all(entries: Seq<CacheEntry>, upto: int) -> int
    decreases upto,
{
    if upto <= 0 {
        0
    } else {
        size_of_all(entries, upto - 1) + entries[upto - 1].size
    }
}

/// The size of the first `upto` picked entries together.
pub open spec fn size_of_picked(entries: Seq<CacheEntry>, picks: Seq<usize>, upto: int) -> int
    decreases upto,
{
    if upto <= 0 {
        0
    } else {
        size_of_picked(entries, picks, upto - 1) + entries[picks[upto - 1] as int].size
    }
}

/// What a sweep deletes. Nothing, where the cache is within `max_size`.
/// Else entries are deleted one by one, none twice, each time the one that
/// goes before all that are left, for as long as what is left is above
/// `target_size`.
pub open spec fn sweep_ok(
    entries: Seq<CacheEntry>,
    max_size: u64,
    target_size: u64,
    picks: Seq<usize>,
) -> bool {
    let total = size_of_all(entries, entries.len() as int);
    if total <= max_size {
        picks.len() == 0
    } else {
        &&& forall|j: int| 0 <= j < picks.len() ==> (#[trigger] picks[j]) < entries.len()
        &&& picks.no_duplicates()
        &&& forall|j: int, i: int|
            0 <= j < picks.len() && 0 <= i < entries.len() && i != picks[j] && !picked(
                picks.take(j),
                i,
            ) ==> #[trigger] goes_before(entries, picks[j] as int, i)
        &&& forall|j: int|
            0 <= j < picks.len() ==> total - #[trigger] size_of_picked(entries, picks, j)
                > target_size
        &&& (picks.len() == entries.len() || total - size_of_picked(
            entries,
            picks,
            picks.len() as int,
        ) <= target_size)
    }
}

/// What a sweep has planned.
#[derive(Debug)]
pub struct Sweep {
    /// The entries to delete, by their offsets in the list, in the order in
    /// which they are deleted.
    pub evict: Vec<usize>,
    /// The bytes that deleting them frees.
    pub freed: u128,
}

/// The sizes of entries add up to less than the entries times the largest
/// size.
proof fn lemma_size_bound(entries: Seq<CacheEntry>, upto: int)
    requires
        0 <= upto <= entries.len(),
    ensures
        0 <= size_of_all(entries, upto) <= upto * 0xffff_ffff_ffff_ffff,
    decreases upto,
{
    if upto > 0 {
        lemma_size_bound(entries, upto - 1);
        assert((upto - 1) * 0xffff_ffff_ffff_ffff + 0xffff_ffff_ffff_ffff == upto
            * 0xffff_ffff_ffff_ffff) by (nonlinear_arith);
    }
}

/// The size of the picked entries depends on the picks up to `upto` only.
proof fn lemma_picked_prefix(entries: Seq<CacheEntry>, a: Seq<usize>, b: Seq<usize>, upto: int)
    requires
        0 <= upto <= a.len(),
        upto <= b.len(),
        forall|k: int| 0 <= k < upto ==> a[k] == b[k],
    ensures
        size_of_picked(entries, a, upto) == size_of_picked(entries, b, upto),
    decreases upto,
{
    if upto > 0 {
        lemma_picked_prefix(entries, a, b, upto - 1);
    }
}

/// Adds up the sizes of all entries.
fn total_size(entries: &Vec<CacheEntry>) -> (total: u128)
    ensures
        total == size_of_all(entries@, entries.len() as int),
{
    let mut total: u128 = 0;
    let mut i: usize = 0;
    while i < entries.len()
        invariant
            i <= entries.len(),
            total == size_of_all(entries@, i as int),
        decreases entries.len() - i,
    {
        proof {
            lemma_size_bound(entries@, i as int);
            assert(i * 0xffff_ffff_ffff_ffff <= 0xffff_ffff_ffff_ffff * 0xffff_ffff_ffff_ffff)
                by (nonlinear_arith)
                requires
                    0 <= i <= 0xffff_ffff_ffff_ffff,
            ;
        }
        total = total + entries[i].size as u128;
        i += 1;
    }
    total
}

/// Finds the entry that goes before all others that are not taken yet.
fn oldest_left(entries: &Vec<CacheEntry>, taken: &Vec<bool>) -> (r: Option<usize>)
    requires
        taken.len() == entries.len(),
    ensures
        match r {
            Some(best) => {
                &&& best < entries.len()
                &&& !taken@[best as int]
                &&& forall|i: int|
                    0 <= i < entries.len() && !taken@[i] && i != best ==> #[trigger] goes_before(
                        entries@,
                        best as int,
                        i,
                    )
            },
            None => forall|i: int| 0 <= i < entries.len() ==> #[trigger] taken@[i],
        },
{
    let mut best: Option<usize> = None;
    let mut i: usize = 0;
    while i < entries.len()
        invariant
            i <= entries.len(),
            taken.len() == entries.len(),
            match best {
                Some(b) => {
                    &&& b < i
                    &&& !taken@[b as int]
                    &&& forall|k: int|
                        0 <= k < i && !taken@[k] && k != b ==> #[trigger] goes_before(
                            entries@,
                            b as int,
                            k,
                        )
                },
                None => forall|k: int| 0 <= k < i ==> #[trigger] taken@[k],
            },
        decreases entries.len() - i,
    {
        if !taken[i] {
            match best {
                Some(b) => {
                    if entries[i].modified < entries[b].modified {
                        proof {
                            assert forall|k: int| 0 <= k < i + 1 && !taken@[k] && k
                                != i implies #[trigger] goes_before(entries@, i as int, k) by {
                                if k != b {
                                    assert(goes_before(entries@, b as int, k));
                                }
                            }
                        }
                        best = Some(i);
                    } else {
                        proof {
                            assert forall|k: int| 0 <= k < i + 1 && !taken@[k] && k
                                != b implies #[trigger] goes_before(entries@, b as int, k) by {
                                if k < i {
                                    assert(goes_before(entries@, b as int, k));
                                }
                            }
                        }
                    }
                },
                None => {
                    proof {
                        assert forall|k: int| 0 <= k < i + 1 && !taken@[k] && k
                            != i implies #[trigger] goes_before(entries@, i as int, k) by {
                            assert(taken@[k]);
                        }
                    }
                    best = Some(i);
                },
            }
        } else {
            proof {
                match best {
                    Some(b) => {
                        assert forall|k: int| 0 <= k < i + 1 && !taken@[k] && k
                            != b implies #[trigger] goes_before(entries@, b as int, k) by {
                            assert(k < i);
                            assert(goes_before(entries@, b as int, k));
                        }
                    },
                    None => {},
                }
            }
        }
        i += 1;
    }
    best
}

/// Plans a sweep of the cache: nothing where all entries together are
/// within `max_size`; else the entries unused for the longest time, one
/// after the other, until what is left is within `target_size`.
pub fn plan_sweep(entries: &Vec<CacheEntry>, max_size: u64, target_size: u64) -> (r: Sweep)
    ensures
        sweep_ok(entries@, max_size, target_size, r.evict@),
        r.freed == size_of_picked(entries@, r.evict@, r.evict.len() as int),
{
    let total = total_size(entries);
    let mut evict: Vec<usize> = Vec::new();
    if total <= max_size as u128 {
        return Sweep { evict, freed: 0 };
    }
    let n = entries.len();
    let mut taken: Vec<bool> = Vec::new();
    let mut t: usize = 0;
    while t < n
        invariant
            t <= n,
            taken.len() == t,
            forall|k: int| 0 <= k < t ==> !(#[trigger] taken@[k]),
        decreases n - t,
    {
        taken.push(false);
        t += 1;
    }
    let mut freed: u128 = 0;
    let mut done = false;
    let ghost all = size_of_all(entries@, n as int);
    while !done && total - freed > target_size as u128
        invariant
            n == entries.len(),
            taken.len() == n,
            total == all,
            all == size_of_all(entries@, n as int),
            evict.len() <= n,
            freed == size_of_picked(entries@, evict@, evict.len() as int),
            0 <= freed <= total,
            done ==> evict.len() == n,
            forall|i: int| 0 <= i < n ==> (#[trigger] taken@[i] <==> picked(evict@, i)),
            evict@.no_duplicates(),
            forall|j: int| 0 <= j < evict.len() ==> (#[trigger] evict@[j]) < n,
            forall|j: int, i: int|
                0 <= j < evict.len() && 0 <= i < n && i != evict@[j] && !picked(
                    evict@.take(j),
                    i,
                ) ==> #[trigger] goes_before(entries@, evict@[j] as int, i),
            forall|j: int|
                0 <= j < evict.len() ==> all - #[trigger] size_of_picked(entries@, evict@, j)
                    > target_size,
        decreases n - evict.len() + (if done { 0int } else { 1int }),
    {
        let ghost picks = evict@;
        match oldest_left(entries, &taken) {
            Some(best) => {
                proof {
                    assert(!picked(picks, best as int));
                    lemma_left_over(entries@, picks, best);
                    assert(picks.len() < n) by {
                        if picks.len() == n {
                            lemma_all_picked(picks, n as nat, best);
                        }
                    }
                }
                taken.set(best, true);
                evict.push(best);
                freed = freed + entries[best].size as u128;
                proof {
                    let now = evict@;
                    assert(now == picks.push(best));
                    assert(now.take(picks.len() as int) =~= picks);
                    lemma_picked_prefix(entries@, now, picks, picks.len() as int);
                    assert(now.no_duplicates()) by {
                        assert forall|a: int, b: int|
                            0 <= a < now.len() && 0 <= b < now.len() && a != b implies now[a]
                            != now[b] by {
                            if a < picks.len() && b < picks.len() {
                            } else if a < picks.len() {
                                assert(picks[a] != best);
                            } else {
                                assert(picks[b] != best);
                            }
                        }
                    }
                    assert forall|j: int| 0 <= j < now.len() implies all - #[trigger] size_of_picked(
                        entries@,
                        now,
                        j,
                    ) > target_size by {
                        lemma_picked_prefix(entries@, now, picks, j);
                    }
                    assert forall|i: int| 0 <= i < n implies (#[trigger] taken@[i] <==> picked(
                        now,
                        i,
                    )) by {
                        if picked(picks, i) {
                            let k = choose|k: int| 0 <= k < picks.len() && picks[k] == i;
                            assert(now[k] == i);
                        }
                        if i == best {
                            assert(now[picks.len() as int] == best);
                        }
                        if picked(now, i) {
                            let k = choose|k: int| 0 <= k < now.len() && now[k] == i;
                            if k < picks.len() {
                                assert(picks[k] == i);
                            }
                        }
                    }
                    assert forall|j: int, i: int|
                        0 <= j < now.len() && 0 <= i < n && i != now[j] && !picked(
                            now.take(j),
                            i,
                        ) implies #[trigger] goes_before(entries@, now[j] as int, i) by {
                        if j < picks.len() {
                            assert(now.take(j) =~= picks.take(j));
                            assert(goes_before(entries@, picks[j] as int, i));
                        } else {
                            assert(now.take(j) =~= picks);
                            assert(!taken@[i] || i == best);
                        }
                    }
                }
            },
            None => {
                proof {
                    // every entry is picked, so nothing is left
                    assert forall|i: int| 0 <= i < n implies picked(picks, i) by {
                        assert(taken@[i]);
                    }
                    lemma_everything_picked(picks, n as nat);
                }
                done = true;
            },
        }
    }
    Sweep { evict, freed }
}

/// Whether the entry at offset `i` is among the picks.
pub open spec fn picked(picks: Seq<usize>, i: int) -> bool {
    exists|k: int| 0 <= k < picks.len() && picks[k] == i
}

/// There are `n` numbers below `n`.
proof fn lemma_below_finite(n: nat)
    ensures
        Set::new(|k: int| 0 <= k < n).finite(),
        Set::new(|k: int| 0 <= k < n).len() == n,
    decreases n,
{
    let below = Set::new(|k: int| 0 <= k < n);
    if n == 0 {
        assert(below =~= Set::<int>::empty());
    } else {
        lemma_below_finite((n - 1) as nat);
        let prev = Set::new(|k: int| 0 <= k < n - 1);
        assert(below =~= prev.insert(n - 1));
    }
}

/// The offsets that distinct picks stand for.
spec fn offsets(picks: Seq<usize>) -> Seq<int> {
    Seq::new(picks.len(), |j: int| picks[j] as int)
}

/// Distinct picks below `n` are `n` at most.
proof fn lemma_distinct_len(picks: Seq<usize>, n: nat)
    requires
        picks.no_duplicates(),
        forall|j: int| 0 <= j < picks.len() ==> (#[trigger] picks[j]) < n,
    ensures
        picks.len() <= n,
{
    let o = offsets(picks);
    assert(o.no_duplicates());
    o.unique_seq_to_set();
    let below = Set::new(|k: int| 0 <= k < n);
    assert(o.to_set().subset_of(below)) by {
        assert forall|k: int| o.to_set().contains(k) implies below.contains(k) by {
            let j = choose|j: int| 0 <= j < o.len() && o[j] == k;
            assert(picks[j] < n);
        }
    }
    lemma_below_finite(n);
    vstd::set_lib::lemma_len_subset(o.to_set(), below);
}

/// Where distinct picks below `n` are `n` in number, every number below `n`
/// is picked.
proof fn lemma_all_picked(picks: Seq<usize>, n: nat, k: usize)
    requires
        picks.no_duplicates(),
        forall|j: int| 0 <= j < picks.len() ==> (#[trigger] picks[j]) < n,
        picks.len() == n,
        k < n,
    ensures
        picked(picks, k as int),
{
    if !picked(picks, k as int) {
        let more = picks.push(k);
        assert(more.no_duplicates()) by {
            assert forall|a: int, b: int| 0 <= a < more.len() && 0 <= b < more.len() && a
                != b implies more[a] != more[b] by {
                if a < picks.len() && b < picks.len() {
                } else if a < picks.len() {
                    assert(picks[a] != k);
                } else {
                    assert(picks[b] != k);
                }
            }
        }
        assert forall|j: int| 0 <= j < more.len() implies (#[trigger] more[j]) < n by {
            if j < picks.len() {
                assert(more[j] == picks[j]);
            }
        }
        lemma_distinct_len(more, n);
    }
}

/// Where every entry is picked once, the picks are as many as the entries.
proof fn lemma_everything_picked(picks: Seq<usize>, n: nat)
    requires
        picks.no_duplicates(),
        forall|j: int| 0 <= j < picks.len() ==> (#[trigger] picks[j]) < n,
        forall|i: int| 0 <= i < n ==> picked(picks, i),
    ensures
        picks.len() == n,
{
    lemma_distinct_len(picks, n);
    let o = offsets(picks);
    assert(o.no_duplicates());
    o.unique_seq_to_set();
    let below = Set::new(|k: int| 0 <= k < n);
    lemma_below_finite(n);
    assert(below.subset_of(o.to_set())) by {
        assert forall|k: int| below.contains(k) implies o.to_set().contains(k) by {
            assert(picked(picks, k));
            let j = choose|j: int| 0 <= j < picks.len() && picks[j] == k;
            assert(o[j] == k);
        }
    }
    vstd::set_lib::lemma_len_subset(below, o.to_set());
}

/// The sizes of the picked entries and of one that is left are together
/// within the size of all entries.
proof fn lemma_left_over(entries: Seq<CacheEntry>, picks: Seq<usize>, left: usize)
    requires
        picks.no_duplicates(),
        forall|j: int| 0 <= j < picks.len() ==> (#[trigger] picks[j]) < entries.len(),
        left < entries.len(),
        !picked(picks, left as int),
    ensures
        size_of_picked(entries, picks, picks.len() as int) + entries[left as int].size
            <= size_of_all(entries, entries.len() as int),
{
    let more = picks.push(left);
    assert(more.no_duplicates()) by {
        assert forall|a: int, b: int| 0 <= a < more.len() && 0 <= b < more.len() && a
            != b implies more[a] != more[b] by {
            if a < picks.len() && b < picks.len() {
            } else if a < picks.len() {
                assert(picks[a] != left);
            } else {
                assert(picks[b] != left);
            }
        }
    }
    assert forall|j: int| 0 <= j < more.len() implies (#[trigger] more[j]) < entries.len() by {
        if j < picks.len() {
            assert(more[j] == picks[j]);
        }
    }
    lemma_picked_within(entries, more, entries.len());
    lemma_picked_prefix(entries, more, picks, picks.len() as int);
    assert(size_of_picked(entries, more, more.len() as int) == size_of_picked(
        entries,
        more,
        picks.len() as int,
    ) + entries[more[picks.len() as int] as int].size);
}

/// Distinct picks among the first `upto` entries are together no larger
/// than those entries.
proof fn lemma_picked_within(entries: Seq<CacheEntry>, picks: Seq<usize>, upto: nat)
    requires
        picks.no_duplicates(),
        upto <= entries.len(),
        forall|j: int| 0 <= j < picks.len() ==> (#[trigger] picks[j]) < upto,
    ensures
        size_of_picked(entries, picks, picks.len() as int) <= size_of_all(entries, upto as int),
    decreases upto,
{
    if upto == 0 {
        if picks.len() > 0 {
            assert(picks[0] < 0);
        }
    } else {
        let last = upto - 1;
        if picked(picks, last) {
            let at = choose|at: int| 0 <= at < picks.len() && picks[at] == last;
            let rest = picks.remove(at);
            assert(rest.no_duplicates()) by {
                assert forall|a: int, b: int| 0 <= a < rest.len() && 0 <= b < rest.len() && a
                    != b implies rest[a] != rest[b] by {
                    let a0 = if a < at { a } else { a + 1 };
                    let b0 = if b < at { b } else { b + 1 };
                    assert(rest[a] == picks[a0]);
                    assert(rest[b] == picks[b0]);
                }
            }
            assert forall|j: int| 0 <= j < rest.len() implies (#[trigger] rest[j]) < upto - 1 by {
                let j0 = if j < at { j } else { j + 1 };
                assert(rest[j] == picks[j0]);
                assert(picks[j0] < upto);
                assert(picks[j0] != picks[at]);
            }
            lemma_picked_within(entries, rest, (upto - 1) as nat);
            lemma_picked_remove(entries, picks, at);
        } else {
            assert forall|j: int| 0 <= j < picks.len() implies (#[trigger] picks[j]) < upto - 1 by {
                assert(picks[j] < upto);
                if picks[j] == last {
                    assert(picked(picks, last));
                }
            }
            lemma_picked_within(entries, picks, (upto - 1) as nat);
        }
    }
}

/// Taking a pick out takes its entry's size out of the sum.
proof fn lemma_picked_remove(entries: Seq<CacheEntry>, picks: Seq<usize>, at: int)
    requires
        0 <= at < picks.len(),
    ensures
        size_of_picked(entries, picks, picks.len() as int) == size_of_picked(
            entries,
            picks.remove(at),
            picks.len() - 1,
        ) + entries[picks[at] as int].size,
    decreases picks.len(),
{
    let rest = picks.remove(at);
    let n = picks.len() as int;
    if at == n - 1 {
        lemma_picked_prefix(entries, picks, rest, n - 1);
    } else {
        let shorter = picks.drop_last();
        lemma_picked_remove(entries, shorter, at);
        lemma_picked_prefix(entries, picks, shorter, n - 1);
        assert(shorter.remove(at) =~= rest.drop_last());
        lemma_picked_prefix(entries, rest, rest.drop_last(), n - 2);
        assert(rest[n - 2] == picks[n - 1]);
    }
}

} // verus!
