//! Narratives: the cache that keeps one fetch per address in flight, the
//! plan of the fetches for a batch of items, and what a reply of the
//! narrative service holds.

use vstd::prelude::*;
use vstd::string::*;
use dashmap::DashMap;
use crate::decimal::{decimal_nat, u64_to_chars};
use crate::keys::{chain_id_spec, get_chain_id};
use crate::pool::{recycles, should_recycle, FetchFailure};
use crate::shared::{texts_get, texts_in, texts_insert, texts_new, texts_remove};
use crate::text::{lowercase, lowercase_of, same_text, string_of};
use crate::types::NarrativeResponse;

verus! {

/// An item that a narrative can be attached to.
pub trait NarrativeEntity {
    /// The item's contract address.
    spec fn address_view(&self) -> Seq<char>;

    /// The item's chain.
    spec fn chain_view(&self) -> Seq<char>;

    /// The item's narrative, if it has one.
    spec fn narrative_view(&self) -> Option<Seq<char>>;

    /// The chain id under which the narrative service knows the item, where
    /// the item brings its own.
    spec fn narrative_chain_view(&self) -> Option<Seq<char>>;

    /// Whether the item is `other` in everything but its narrative.
    spec fn otherwise_same(&self, other: &Self) -> bool;

    /// An item is itself in everything.
    proof fn lemma_same_as_itself(&self)
        ensures
            self.otherwise_same(self),
    ;

    /// The item's contract address.
    fn get_address(&self) -> (r: &str)
        ensures
            r@ == self.address_view(),
    ;

    /// The item's chain.
    fn get_chain(&self) -> (r: &str)
        ensures
            r@ == self.chain_view(),
    ;

    /// Gives the item a narrative, and leaves the rest of it as it is.
    fn set_narrative(&mut self, narrative: String)
        ensures
            final(self).narrative_view() == Some(narrative@),
            final(self).otherwise_same(old(self)),
            final(self).address_view() == old(self).address_view(),
            final(self).chain_view() == old(self).chain_view(),
            final(self).narrative_chain_view() == old(self).narrative_chain_view(),
    ;

    /// The item's narrative, if it has one.
    fn get_narrative(&self) -> (r: Option<&str>)
        ensures
            match r {
                Some(n) => self.narrative_view() == Some(n@),
                None => self.narrative_view() is None,
            },
    ;

    /// The chain id under which the narrative service knows the item, where
    /// the item brings its own.
    fn get_narrative_chain_id(&self) -> (r: Option<String>)
        ensures
            match r {
                Some(id) => self.narrative_chain_view() == Some(id@),
                None => self.narrative_chain_view() is None,
            },
    ;
}

// ---------------------------------------------------------------------------
// The cache
// ---------------------------------------------------------------------------

/// The cached text that marks a fetch in flight.
pub open spec fn pending() -> Seq<char> {
    "__PENDING__"@
}

/// Whether a cached text is a narrative to attach: it is neither empty nor
/// the mark of a fetch in flight.
pub open spec fn usable(text: Seq<char>) -> bool {
    text.len() > 0 && text != pending()
}

/// How a fetch has ended.
#[derive(Debug)]
pub enum FetchOutcome {
    /// The service has a narrative.
    Found(String),
    /// The service answered and has none.
    Absent,
    /// The request failed, in the way given.
    Failed(FetchFailure),
}

/// A fetch to make.
#[derive(Debug)]
pub struct FetchJob {
    /// The address to ask for, as the item wrote it.
    pub address: String,
    /// The chain id to ask under.
    pub chain_id: String,
    /// Milliseconds to wait before asking, so that the requests of a batch
    /// do not go out at once.
    pub delay_ms: u64,
}

/// A fetch as mathematics.
pub struct JobView {
    pub address: Seq<char>,
    pub chain_id: Seq<char>,
    pub delay_ms: u64,
}

impl View for FetchJob {
    type V = JobView;

    open spec fn view(&self) -> JobView {
        JobView { address: self.address@, chain_id: self.chain_id@, delay_ms: self.delay_ms }
    }
}

/// The views of a sequence of jobs.
pub open spec fn job_views(v: Seq<FetchJob>) -> Seq<JobView> {
    Seq::new(v.len(), |i: int| v[i]@)
}

/// The cache of narratives by address in lower case: a narrative, the empty
/// text for an address known to have none, or the mark of a fetch in flight.
pub struct NarrativeCache {
    entries: DashMap<String, String>,
}

impl View for NarrativeCache {
    type V = Map<Seq<char>, Seq<char>>;

    closed spec fn view(&self) -> Map<Seq<char>, Seq<char>> {
        texts_in(self.entries)
    }
}

/// The cache after the fetch for `address` has ended with `outcome`.
pub open spec fn recorded(
    cache: Map<Seq<char>, Seq<char>>,
    address: Seq<char>,
    outcome: FetchOutcome,
) -> Map<Seq<char>, Seq<char>> {
    let key = lowercase_of(address);
    match outcome {
        FetchOutcome::Found(text) => cache.insert(key, text@),
        FetchOutcome::Absent => cache.insert(key, Seq::empty()),
        FetchOutcome::Failed(_) => cache.remove(key),
    }
}

impl NarrativeCache {
    /// A cache without entries.
    pub fn new() -> (c: NarrativeCache)
        ensures
            c@ == Map::<Seq<char>, Seq<char>>::empty(),
    {
        NarrativeCache { entries: texts_new() }
    }

    /// Claims the fetch for `address`: where the cache has no entry for it,
    /// the mark of a fetch in flight is entered and the caller has to fetch;
    /// where it has one, nothing changes and nothing is to be fetched.
    pub fn claim(&mut self, address: &str) -> (claimed: bool)
        ensures
            claimed == !old(self)@.contains_key(lowercase_of(address@)),
            claimed ==> final(self)@ == old(self)@.insert(lowercase_of(address@), pending()),
            !claimed ==> final(self)@ == old(self)@,
    {
        let key = lowercase(address);
        if texts_get(&self.entries, key.as_str()).is_some() {
            false
        } else {
            texts_insert(&mut self.entries, key, String::from_str("__PENDING__"));
            true
        }
    }

    /// Records how the fetch for `address` has ended: a narrative is kept; an
    /// answer without one is kept as the empty text, so that it is not asked
    /// for again; after a failure the entry is dropped, so that it is. Tells
    /// whether the client that made the request has to be recycled, which is
    /// so after a failure that is the client's: one on the way, or a status
    /// of 500 or above.
    pub fn record(&mut self, address: &str, outcome: FetchOutcome) -> (recycle: bool)
        ensures
            final(self)@ == recorded(old(self)@, address@, outcome),
            recycle == match outcome {
                FetchOutcome::Failed(failure) => recycles(failure),
                _ => false,
            },
    {
        let key = lowercase(address);
        match outcome {
            FetchOutcome::Found(text) => {
                texts_insert(&mut self.entries, key, text);
                false
            },
            FetchOutcome::Absent => {
                texts_insert(&mut self.entries, key, String::new());
                false
            },
            FetchOutcome::Failed(failure) => {
                texts_remove(&mut self.entries, key.as_str());
                should_recycle(failure)
            },
        }
    }

    /// Enters into the cache that `address` has no narrative.
    fn record_none(&mut self, address: &str)
        ensures
            final(self)@ == old(self)@.insert(lowercase_of(address@), Seq::empty()),
    {
        let key = lowercase(address);
        texts_insert(&mut self.entries, key, String::new());
    }

    /// The narrative of `address` to attach, if the cache holds one.
    pub fn narrative_for(&self, address: &str) -> (r: Option<String>)
        ensures
            match r {
                Some(text) => self@.contains_key(lowercase_of(address@)) && text@
                    == self@[lowercase_of(address@)] && usable(text@),
                None => !self@.contains_key(lowercase_of(address@)) || !usable(
                    self@[lowercase_of(address@)],
                ),
            },
    {
        let key = lowercase(address);
        match texts_get(&self.entries, key.as_str()) {
            Some(text) => {
                if text.as_str().unicode_len() > 0 && !same_text(text.as_str(), "__PENDING__") {
                    Some(text)
                } else {
                    None
                }
            },
            None => None,
        }
    }

    /// Tells whether a fetch for `address` is in flight.
    pub fn is_pending(&self, address: &str) -> (r: bool)
        ensures
            r == (self@.contains_key(lowercase_of(address@)) && self@[lowercase_of(address@)]
                == pending()),
    {
        let key = lowercase(address);
        match texts_get(&self.entries, key.as_str()) {
            Some(text) => same_text(text.as_str(), "__PENDING__"),
            None => false,
        }
    }
}

// ---------------------------------------------------------------------------
// The plan for a batch
// ---------------------------------------------------------------------------

/// The chain id to ask the narrative service under: the item's own where it
/// brings one, else the id of its chain in decimal notation, if the chain
/// has one.
pub open spec fn resolved_chain_id(own: Option<Seq<char>>, chain: Seq<char>) -> Option<Seq<char>> {
    match own {
        Some(id) => Some(id),
        None => match chain_id_spec(chain) {
            Some(n) => Some(decimal_nat(n as nat)),
            None => None,
        },
    }
}

/// The delay of the `k`-th claimed item of a batch: a quarter of a second
/// for each claimed item before it.
pub open spec fn stagger_ms(k: nat) -> u64 {
    if 250 * k <= u64::MAX {
        (250 * k) as u64
    } else {
        u64::MAX
    }
}

/// What planning a batch has come to.
pub struct Plan {
    /// The cache.
    pub cache: Map<Seq<char>, Seq<char>>,
    /// The fetches to make, in the order of their items.
    pub jobs: Seq<JobView>,
    /// The items claimed so far, with or without a fetch.
    pub claimed: nat,
}

/// The plan after the first `upto` items: an item whose address the cache
/// knows is passed over; any other is claimed, and either gets a fetch and
/// the mark of one in flight, or, where no chain id can be had for it, the
/// empty text for good.
pub open spec fn plan_after<T: NarrativeEntity>(
    cache: Map<Seq<char>, Seq<char>>,
    items: Seq<T>,
    upto: int,
) -> Plan
    decreases upto,
{
    if upto <= 0 {
        Plan { cache, jobs: Seq::empty(), claimed: 0 }
    } else {
        let prev = plan_after(cache, items, upto - 1);
        let item = items[upto - 1];
        let key = lowercase_of(item.address_view());
        if prev.cache.contains_key(key) {
            prev
        } else {
            match resolved_chain_id(item.narrative_chain_view(), item.chain_view()) {
                Some(id) => Plan {
                    cache: prev.cache.insert(key, pending()),
                    jobs: prev.jobs.push(
                        JobView {
                            address: item.address_view(),
                            chain_id: id,
                            delay_ms: stagger_ms(prev.claimed),
                        },
                    ),
                    claimed: prev.claimed + 1,
                },
                None => Plan {
                    cache: prev.cache.insert(key, Seq::empty()),
                    jobs: prev.jobs,
                    claimed: prev.claimed + 1,
                },
            }
        }
    }
}

/// No address has two fetches in flight. A batch plans a fetch only for an
/// address that the cache did not know, so for none that had a fetch in
/// flight; it plans no two fetches for one address; each address with a
/// planned fetch carries the mark of a fetch in flight afterwards; and what
/// the cache knew before is as it was.
pub proof fn lemma_one_fetch_in_flight<T: NarrativeEntity>(
    cache: Map<Seq<char>, Seq<char>>,
    items: Seq<T>,
    upto: int,
)
    requires
        0 <= upto <= items.len(),
    ensures
        ({
            let p = plan_after(cache, items, upto);
            &&& forall|j: int|
                0 <= j < p.jobs.len() ==> {
                    &&& !cache.contains_key(lowercase_of((#[trigger] p.jobs[j]).address))
                    &&& p.cache.contains_key(lowercase_of(p.jobs[j].address))
                    &&& p.cache[lowercase_of(p.jobs[j].address)] == pending()
                }
            &&& forall|a: int, b: int|
                0 <= a < b < p.jobs.len() ==> lowercase_of((#[trigger] p.jobs[a]).address)
                    != lowercase_of((#[trigger] p.jobs[b]).address)
            &&& forall|k: Seq<char>| #[trigger]
                cache.contains_key(k) ==> p.cache.contains_key(k) && p.cache[k] == cache[k]
        }),
    decreases upto,
{
    if upto > 0 {
        lemma_one_fetch_in_flight(cache, items, upto - 1);
        let prev = plan_after(cache, items, upto - 1);
        let p = plan_after(cache, items, upto);
        let item = items[upto - 1];
        let key = lowercase_of(item.address_view());
        if !prev.cache.contains_key(key) {
            assert forall|j: int| 0 <= j < p.jobs.len() implies {
                &&& !cache.contains_key(lowercase_of((#[trigger] p.jobs[j]).address))
                &&& p.cache.contains_key(lowercase_of(p.jobs[j].address))
                &&& p.cache[lowercase_of(p.jobs[j].address)] == pending()
            } by {
                if j < prev.jobs.len() {
                    assert(p.jobs[j] == prev.jobs[j]);
                }
            }
            assert forall|a: int, b: int| 0 <= a < b < p.jobs.len() implies lowercase_of(
                (#[trigger] p.jobs[a]).address,
            ) != lowercase_of((#[trigger] p.jobs[b]).address) by {
                assert(p.jobs[a] == prev.jobs[a]);
                if b < prev.jobs.len() {
                    assert(p.jobs[b] == prev.jobs[b]);
                }
            }
        }
    }
}

/// The narrative that `cache` gives an item: the cached text of its address
/// where that is usable, else the one it had.
pub open spec fn attached<T: NarrativeEntity>(cache: Map<Seq<char>, Seq<char>>, item: T) -> Option<
    Seq<char>,
> {
    let key = lowercase_of(item.address_view());
    if cache.contains_key(key) && usable(cache[key]) {
        Some(cache[key])
    } else {
        item.narrative_view()
    }
}

/// The chain id to ask under for an item.
fn chain_id_for<T: NarrativeEntity>(item: &T) -> (r: Option<String>)
    ensures
        match r {
            Some(id) => resolved_chain_id(item.narrative_chain_view(), item.chain_view()) == Some(
                id@,
            ),
            None => resolved_chain_id(item.narrative_chain_view(), item.chain_view()) is None,
        },
{
    match item.get_narrative_chain_id() {
        Some(id) => Some(id),
        None => match get_chain_id(item.get_chain()) {
            Some(n) => {
                let digits = u64_to_chars(n);
                Some(string_of(&digits))
            },
            None => None,
        },
    }
}

/// The delay of the `k`-th claimed item.
fn stagger(k: usize) -> (r: u64)
    ensures
        r == stagger_ms(k as nat),
{
    let wide: u128 = (k as u128) * 250;
    if wide <= u64::MAX as u128 {
        wide as u64
    } else {
        u64::MAX
    }
}

/// Plans the fetches for a batch of items and attaches the narratives that
/// are cached already. Each item whose address the cache does not know is
/// claimed, in order; a claimed item gets a fetch, staggered by a quarter of
/// a second per claimed item before it, unless no chain id can be had for
/// it, in which case its address is entered as having no narrative. Then
/// every item whose address has a usable cached text gets that text. Nothing
/// else of an item changes.
pub fn enrich_any_data<T: NarrativeEntity>(items: &mut Vec<T>, cache: &mut NarrativeCache) -> (jobs:
    Vec<FetchJob>)
    ensures
        final(cache)@ == plan_after(old(cache)@, old(items)@, old(items).len() as int).cache,
        job_views(jobs@) == plan_after(old(cache)@, old(items)@, old(items).len() as int).jobs,
        final(items).len() == old(items).len(),
        forall|k: int|
            0 <= k < old(items).len() ==> {
                &&& (#[trigger] final(items)@[k]).address_view() == old(items)@[k].address_view()
                &&& final(items)@[k].chain_view() == old(items)@[k].chain_view()
                &&& final(items)@[k].narrative_chain_view() == old(
                    items,
                )@[k].narrative_chain_view()
                &&& final(items)@[k].narrative_view() == attached(final(cache)@, old(items)@[k])
                &&& final(items)@[k].otherwise_same(&old(items)@[k])
            },
{
    let ghost cache0 = cache@;
    let ghost items0 = items@;
    let mut jobs: Vec<FetchJob> = Vec::new();
    let mut claimed: usize = 0;
    let mut i: usize = 0;
    assert(job_views(jobs@) =~= Seq::<JobView>::empty());
    while i < items.len()
        invariant
            i <= items.len(),
            items@ == items0,
            claimed <= i,
            cache@ == plan_after(cache0, items0, i as int).cache,
            job_views(jobs@) == plan_after(cache0, items0, i as int).jobs,
            claimed == plan_after(cache0, items0, i as int).claimed,
        decreases items.len() - i,
    {
        let item = &items[i];
        let ghost prev = plan_after(cache0, items0, i as int);
        let ghost was = job_views(jobs@);
        if cache.claim(item.get_address()) {
            match chain_id_for(item) {
                Some(chain_id) => {
                    let job = FetchJob {
                        address: String::from_str(item.get_address()),
                        chain_id,
                        delay_ms: stagger(claimed),
                    };
                    jobs.push(job);
                    assert(job_views(jobs@) =~= was.push(jobs@[jobs.len() - 1]@));
                },
                None => {
                    cache.record_none(item.get_address());
                    assert(cache@ =~= prev.cache.insert(
                        lowercase_of(item.address_view()),
                        Seq::empty(),
                    ));
                },
            }
            claimed += 1;
        }
        i += 1;
    }
    let n = items.len();
    let mut k: usize = 0;
    proof {
        assert forall|j: int| 0 <= j < n implies (#[trigger] items@[j]).otherwise_same(
            &items0[j],
        ) by {
            items0[j].lemma_same_as_itself();
        }
    }
    while k < n
        invariant
            k <= n,
            n == items0.len(),
            items.len() == n,
            forall|j: int|
                0 <= j < n ==> {
                    &&& (#[trigger] items@[j]).address_view() == items0[j].address_view()
                    &&& items@[j].chain_view() == items0[j].chain_view()
                    &&& items@[j].narrative_chain_view() == items0[j].narrative_chain_view()
                    &&& items@[j].otherwise_same(&items0[j])
                },
            forall|j: int| k <= j < n ==> (#[trigger] items@[j]) == items0[j],
            forall|j: int|
                0 <= j < k ==> (#[trigger] items@[j]).narrative_view() == attached(
                    cache@,
                    items0[j],
                ),
            forall|j: int|
                k <= j < n ==> (#[trigger] items@[j]).narrative_view()
                    == items0[j].narrative_view(),
        decreases n - k,
    {
        let found = cache.narrative_for(items[k].get_address());
        match found {
            Some(text) => {
                let ghost was = items@;
                let mut item = items.remove(k);
                item.set_narrative(text);
                items.insert(k, item);
                proof {
                    assert forall|j: int| 0 <= j < n && j != k implies #[trigger] items@[j]
                        == was[j] by {}
                }
            },
            None => {},
        }
        k += 1;
    }
    jobs
}

// ---------------------------------------------------------------------------
// Requests and replies
// ---------------------------------------------------------------------------

/// The address of the narrative service's endpoint.
pub open spec fn narrative_endpoint() -> Seq<char> {
    "https://web3.binance.com/bapi/defi/v1/public/wallet-direct/buw/wallet/token/ai/narrative/query"@
}

/// The URL of a request for the narrative of a token.
pub open spec fn narrative_url_spec(address: Seq<char>, chain_id: Seq<char>) -> Seq<char> {
    narrative_endpoint() + "?contractAddress="@ + address + "&chainId="@ + chain_id
}

/// Writes the URL of a request to the narrative service.
pub fn narrative_url(address: &str, chain_id: &str) -> (r: String)
    ensures
        r@ == narrative_url_spec(address@, chain_id@),
{
    let mut s = String::from_str(
        "https://web3.binance.com/bapi/defi/v1/public/wallet-direct/buw/wallet/token/ai/narrative/query",
    );
    s.append("?contractAddress=");
    s.append(address);
    s.append("&chainId=");
    s.append(chain_id);
    s
}

/// Whether a body begins with the two bytes that mark a gzip stream.
pub open spec fn is_gzip_spec(bytes: Seq<u8>) -> bool {
    bytes.len() >= 2 && bytes[0] == 0x1f && bytes[1] == 0x8b
}

/// Tells whether a body is a gzip stream, by its first two bytes.
pub fn is_gzip(bytes: &Vec<u8>) -> (r: bool)
    ensures
        r == is_gzip_spec(bytes@),
{
    bytes.len() >= 2 && bytes[0] == 0x1f && bytes[1] == 0x8b
}

/// The text that a gzip stream unpacks to, if it unpacks and the result is
/// UTF-8.
pub uninterp spec fn gunzip_of(bytes: Seq<u8>) -> Option<Seq<char>>;

/// Unpacks a gzip stream into text.
///
/// Trusted: `flate2::read::GzDecoder` read to its end with
/// `Read::read_to_string`. Whether that succeeds, and with what text, depends
/// on the bytes alone; it is named, not restated.
#[verifier::external_body]
fn gunzip(bytes: &Vec<u8>) -> (r: Option<String>)
    ensures
        (r is Some) == (gunzip_of(bytes@) is Some),
        r is Some ==> gunzip_of(bytes@) == Some(r->0@),
{
    let mut decoder = flate2::read::GzDecoder::new(&bytes[..]);
    let mut text = String::new();
    match std::io::Read::read_to_string(&mut decoder, &mut text) {
        Ok(_) => Some(text),
        Err(_) => None,
    }
}

/// The text of a run of bytes read as UTF-8, with the replacement character
/// in place of what is not.
pub uninterp spec fn lossy_text_of(bytes: Seq<u8>) -> Seq<char>;

/// Reads bytes as UTF-8, putting the replacement character where they are
/// not.
///
/// Trusted: `String::from_utf8_lossy`. The text depends on the bytes alone;
/// it is named, not restated.
#[verifier::external_body]
pub(crate) fn lossy_text(bytes: &Vec<u8>) -> (r: String)
    ensures
        r@ == lossy_text_of(bytes@),
{
    String::from_utf8_lossy(bytes).into_owned()
}

/// The text of a reply's body: unpacked where the body is a gzip stream that
/// unpacks, else read as it is.
pub open spec fn body_text_spec(bytes: Seq<u8>) -> Seq<char> {
    if is_gzip_spec(bytes) {
        match gunzip_of(bytes) {
            Some(text) => text,
            None => lossy_text_of(bytes),
        }
    } else {
        lossy_text_of(bytes)
    }
}

/// Turns the body of a reply into text.
pub fn body_text(bytes: &Vec<u8>) -> (r: String)
    ensures
        r@ == body_text_spec(bytes@),
{
    if is_gzip(bytes) {
        match gunzip(bytes) {
            Some(text) => text,
            None => lossy_text(bytes),
        }
    } else {
        lossy_text(bytes)
    }
}

/// A text that is there and not empty.
pub open spec fn filled(text: Option<String>) -> Option<Seq<char>> {
    match text {
        Some(t) => if t@.len() > 0 {
            Some(t@)
        } else {
            None
        },
        None => None,
    }
}

/// The narrative in a reply: the Chinese text where there is one, else the
/// English one, where each counts only if it is not empty.
pub open spec fn narrative_in(reply: NarrativeResponse) -> Option<Seq<char>> {
    match reply.data {
        Some(data) => match data.text {
            Some(text) => match filled(text.cn) {
                Some(cn) => Some(cn),
                None => filled(text.en),
            },
            None => None,
        },
        None => None,
    }
}

/// Takes the narrative out of a reply, as the outcome of the fetch.
pub fn pick_narrative(reply: NarrativeResponse) -> (r: FetchOutcome)
    ensures
        match r {
            FetchOutcome::Found(text) => narrative_in(reply) == Some(text@),
            FetchOutcome::Absent => narrative_in(reply) is None,
            FetchOutcome::Failed(_) => false,
        },
{
    if let Some(data) = reply.data {
        if let Some(text) = data.text {
            if let Some(cn) = text.cn {
                if cn.as_str().unicode_len() > 0 {
                    return FetchOutcome::Found(cn);
                }
            }
            if let Some(en) = text.en {
                if en.as_str().unicode_len() > 0 {
                    return FetchOutcome::Found(en);
                }
            }
        }
    }
    FetchOutcome::Absent
}

} // verus!
