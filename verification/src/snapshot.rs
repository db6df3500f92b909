//! Snapshot batches: what is kept of a batch, whose narratives are fetched,
//! and which symbols are remembered.
//!
//! The items here carry their names, times and counts. Their prices and
//! volumes stay with the caller, who also applies the rules that read them.

use vstd::prelude::*;
use vstd::string::*;
use dashmap::DashMap;
use crate::narrative::{enrich_any_data, FetchJob, NarrativeCache, NarrativeEntity};
use crate::shared::{texts_get, texts_in, texts_insert, texts_new};
use crate::text::{lowercase, lowercase_of, same_text};
use crate::types::DataAction;

verus! {

/// An item of the hot list.
#[derive(Debug)]
pub struct HotlistItem {
    pub chain: String,
    pub contract_address: String,
    pub symbol: String,
    pub icon: Option<String>,
    pub source: Option<String>,
    pub narrative: Option<String>,
}

/// A text that may be missing, as mathematics.
pub open spec fn text_view(t: Option<String>) -> Option<Seq<char>> {
    match t {
        Some(s) => Some(s@),
        None => None,
    }
}

/// A copy of a text that may be missing.
fn copy_text(t: &Option<String>) -> (r: Option<String>)
    ensures
        text_view(r) == text_view(*t),
{
    match t {
        Some(s) => Some(s.clone()),
        None => None,
    }
}

/// A missing text as a borrowed one.
fn borrow_text(t: &Option<String>) -> (r: Option<&str>)
    ensures
        match r {
            Some(s) => text_view(*t) == Some(s@),
            None => t is None,
        },
{
    match t {
        Some(s) => Some(s.as_str()),
        None => None,
    }
}

impl NarrativeEntity for HotlistItem {
    open spec fn address_view(&self) -> Seq<char> {
        self.contract_address@
    }

    open spec fn chain_view(&self) -> Seq<char> {
        self.chain@
    }

    open spec fn narrative_view(&self) -> Option<Seq<char>> {
        text_view(self.narrative)
    }

    open spec fn narrative_chain_view(&self) -> Option<Seq<char>> {
        None
    }

    open spec fn otherwise_same(&self, other: &Self) -> bool {
        &&& self.chain == other.chain
        &&& self.contract_address == other.contract_address
        &&& self.symbol == other.symbol
        &&& self.icon == other.icon
        &&& self.source == other.source
    }

    proof fn lemma_same_as_itself(&self) {
    }

    fn get_address(&self) -> (r: &str) {
        self.contract_address.as_str()
    }

    fn get_chain(&self) -> (r: &str) {
        self.chain.as_str()
    }

    fn set_narrative(&mut self, narrative: String) {
        self.narrative = Some(narrative);
    }

    fn get_narrative(&self) -> (r: Option<&str>) {
        borrow_text(&self.narrative)
    }

    fn get_narrative_chain_id(&self) -> (r: Option<String>) {
        None
    }
}

/// An item of the new-token and migrated-token lists.
#[derive(Debug)]
pub struct MemeScanItem {
    pub chain: String,
    pub contract_address: String,
    pub symbol: String,
    pub name: String,
    pub icon: Option<String>,
    pub chain_id: Option<String>,
    pub ca_icon: Option<String>,
    pub icon_status: Option<String>,
    pub ca_icon_status: Option<String>,
    pub protocol: Option<String>,
    pub height: Option<String>,
    pub first_seen: Option<String>,
    pub migrate_status: Option<String>,
    pub status: Option<String>,
    pub decimal: i64,
    pub create_time: i64,
    pub migrate_time: i64,
    pub display_time: i64,
    pub update_time: Option<i64>,
    pub holders: i64,
    pub count: i64,
    pub count_buy: i64,
    pub count_sell: i64,
    pub dev_migrate_count: i64,
    pub sensitive_token: bool,
    pub exclusive: bool,
    pub paid_on_dex_screener: bool,
    pub twitter: Option<String>,
    pub telegram: Option<String>,
    pub website: Option<String>,
    pub narrative: Option<String>,
    pub source: Option<String>,
}

impl NarrativeEntity for MemeScanItem {
    open spec fn address_view(&self) -> Seq<char> {
        self.contract_address@
    }

    open spec fn chain_view(&self) -> Seq<char> {
        self.chain@
    }

    open spec fn narrative_view(&self) -> Option<Seq<char>> {
        text_view(self.narrative)
    }

    open spec fn narrative_chain_view(&self) -> Option<Seq<char>> {
        text_view(self.chain_id)
    }

    open spec fn otherwise_same(&self, other: &Self) -> bool {
        &&& self.chain == other.chain
        &&& self.contract_address == other.contract_address
        &&& self.symbol == other.symbol
        &&& self.name == other.name
        &&& self.icon == other.icon
        &&& self.chain_id == other.chain_id
        &&& self.ca_icon == other.ca_icon
        &&& self.icon_status == other.icon_status
        &&& self.ca_icon_status == other.ca_icon_status
        &&& self.protocol == other.protocol
        &&& self.height == other.height
        &&& self.first_seen == other.first_seen
        &&& self.migrate_status == other.migrate_status
        &&& self.status == other.status
        &&& self.decimal == other.decimal
        &&& self.create_time == other.create_time
        &&& self.migrate_time == other.migrate_time
        &&& self.display_time == other.display_time
        &&& self.update_time == other.update_time
        &&& self.holders == other.holders
        &&& self.count == other.count
        &&& self.count_buy == other.count_buy
        &&& self.count_sell == other.count_sell
        &&& self.dev_migrate_count == other.dev_migrate_count
        &&& self.sensitive_token == other.sensitive_token
        &&& self.exclusive == other.exclusive
        &&& self.paid_on_dex_screener == other.paid_on_dex_screener
        &&& self.twitter == other.twitter
        &&& self.telegram == other.telegram
        &&& self.website == other.website
        &&& self.source == other.source
    }

    proof fn lemma_same_as_itself(&self) {
    }

    fn get_address(&self) -> (r: &str) {
        self.contract_address.as_str()
    }

    fn get_chain(&self) -> (r: &str) {
        self.chain.as_str()
    }

    fn set_narrative(&mut self, narrative: String) {
        self.narrative = Some(narrative);
    }

    fn get_narrative(&self) -> (r: Option<&str>) {
        borrow_text(&self.narrative)
    }

    fn get_narrative_chain_id(&self) -> (r: Option<String>) {
        copy_text(&self.chain_id)
    }
}

/// A snapshot batch, by the list it belongs to.
#[derive(Debug)]
#[allow(inconsistent_fields)]
pub enum DataPayload {
    Hotlist { kind: DataAction, data: Vec<HotlistItem> },
    MemeNew { kind: DataAction, data: Vec<MemeScanItem> },
    MemeMigrated { kind: DataAction, data: Vec<MemeScanItem> },
    Unknown,
}

/// The list that a batch belongs to.
#[derive(Debug, Clone, Copy, PartialEq, Eq, Structural)]
pub enum Category {
    Hotlist,
    MemeNew,
    MemeMigrated,
    Unknown,
}

/// The list that a wire tag stands for: `hotlist`, `meme_new` or
/// `meme_migrated`; any other tag is `Unknown`.
pub open spec fn category_spec(tag: Seq<char>) -> Category {
    if tag == "hotlist"@ {
        Category::Hotlist
    } else if tag == "meme_new"@ {
        Category::MemeNew
    } else if tag == "meme_migrated"@ {
        Category::MemeMigrated
    } else {
        Category::Unknown
    }
}

/// Reads the list of a batch from its wire tag.
pub fn category_of(tag: &str) -> (r: Category)
    ensures
        r == category_spec(tag@),
{
    if same_text(tag, "hotlist") {
        Category::Hotlist
    } else if same_text(tag, "meme_new") {
        Category::MemeNew
    } else if same_text(tag, "meme_migrated") {
        Category::MemeMigrated
    } else {
        Category::Unknown
    }
}

// ---------------------------------------------------------------------------
// Symbols
// ---------------------------------------------------------------------------

/// The symbols of the tokens seen, by address in lower case.
pub struct SymbolTable {
    entries: DashMap<String, String>,
}

impl View for SymbolTable {
    type V = Map<Seq<char>, Seq<char>>;

    closed spec fn view(&self) -> Map<Seq<char>, Seq<char>> {
        texts_in(self.entries)
    }
}

/// The label of a token without a known symbol: the first six characters of
/// its address, or all of it where it is shorter, and three dots.
pub open spec fn short_label(address: Seq<char>) -> Seq<char> {
    (if address.len() >= 6 {
        address.take(6)
    } else {
        address
    }) + "..."@
}

impl SymbolTable {
    /// A table without entries.
    pub fn new() -> (t: SymbolTable)
        ensures
            t@ == Map::<Seq<char>, Seq<char>>::empty(),
    {
        SymbolTable { entries: texts_new() }
    }

    /// Remembers the symbol of a token.
    pub fn note(&mut self, address: &str, symbol: &str)
        ensures
            final(self)@ == old(self)@.insert(lowercase_of(address@), symbol@),
    {
        texts_insert(&mut self.entries, lowercase(address), String::from_str(symbol));
    }

    /// The label of the token with the canonical address `address`: its
    /// symbol where one is remembered under that address, else the short
    /// label of the address.
    pub fn label(&self, address: &str) -> (r: String)
        ensures
            r@ == (if self@.contains_key(address@) {
                self@[address@]
            } else {
                short_label(address@)
            }),
    {
        match texts_get(&self.entries, address) {
            Some(s) => s,
            None => {
                let cs = crate::text::chars_of(address);
                let n: usize = if cs.len() >= 6 {
                    6
                } else {
                    cs.len()
                };
                let mut s = crate::text::string_of_range(&cs, 0, n);
                proof {
                    assert(cs@.subrange(0, n as int) =~= (if cs@.len() >= 6 {
                        cs@.take(6)
                    } else {
                        cs@
                    }));
                }
                s.append("...");
                s
            },
        }
    }
}

/// The table after the symbols of the first `upto` items have been noted.
pub open spec fn symbols_after(
    table: Map<Seq<char>, Seq<char>>,
    addresses: Seq<Seq<char>>,
    symbols: Seq<Seq<char>>,
    upto: int,
) -> Map<Seq<char>, Seq<char>>
    decreases upto,
{
    if upto <= 0 {
        table
    } else {
        symbols_after(table, addresses, symbols, upto - 1).insert(
            lowercase_of(addresses[upto - 1]),
            symbols[upto - 1],
        )
    }
}

/// The addresses of hot-list items.
pub open spec fn hot_addresses(items: Seq<HotlistItem>) -> Seq<Seq<char>> {
    Seq::new(items.len(), |i: int| items[i].contract_address@)
}

/// The symbols of hot-list items.
pub open spec fn hot_symbols(items: Seq<HotlistItem>) -> Seq<Seq<char>> {
    Seq::new(items.len(), |i: int| items[i].symbol@)
}

/// The addresses of meme items.
pub open spec fn meme_addresses(items: Seq<MemeScanItem>) -> Seq<Seq<char>> {
    Seq::new(items.len(), |i: int| items[i].contract_address@)
}

/// The symbols of meme items.
pub open spec fn meme_symbols(items: Seq<MemeScanItem>) -> Seq<Seq<char>> {
    Seq::new(items.len(), |i: int| items[i].symbol@)
}

// ---------------------------------------------------------------------------
// Batches
// ---------------------------------------------------------------------------

/// The first `upto` items, without those that have no symbol.
pub open spec fn named_of(items: Seq<MemeScanItem>, upto: int) -> Seq<MemeScanItem>
    decreases upto,
{
    if upto <= 0 {
        Seq::empty()
    } else if items[upto - 1].symbol@.len() > 0 {
        named_of(items, upto - 1).push(items[upto - 1])
    } else {
        named_of(items, upto - 1)
    }
}

/// Drops the items that have no symbol, and keeps the others in order.
pub fn drop_unnamed(items: &mut Vec<MemeScanItem>)
    ensures
        final(items)@ == named_of(old(items)@, old(items).len() as int),
{
    let ghost all = items@;
    let ghost n = items.len() as int;
    let ghost mut seen: int = 0;
    let mut i: usize = 0;
    assert(all.skip(0) =~= all);
    while i < items.len()
        invariant
            0 <= seen <= n,
            n == all.len(),
            i <= items.len(),
            i as int == named_of(all, seen).len(),
            items@ == named_of(all, seen) + all.skip(seen),
        decreases n - seen,
    {
        let ghost was = items@;
        assert(was[i as int] == all[seen]);
        if items[i].symbol.as_str().unicode_len() == 0 {
            items.remove(i);
            proof {
                assert(all.skip(seen + 1) =~= all.skip(seen).skip(1));
                assert(items@ =~= named_of(all, seen + 1) + all.skip(seen + 1));
                seen = seen + 1;
            }
        } else {
            proof {
                assert(all.skip(seen + 1) =~= all.skip(seen).skip(1));
                assert(items@ =~= named_of(all, seen + 1) + all.skip(seen + 1));
                seen = seen + 1;
            }
            i += 1;
        }
    }
    proof {
        assert(items@.len() == named_of(all, seen).len() + all.skip(seen).len());
        assert(seen == n);
        assert(all.skip(n) =~= Seq::<MemeScanItem>::empty());
        assert(items@ =~= named_of(all, n));
    }
}

/// What is to be done with a batch after it has been worked through.
#[derive(Debug)]
pub struct Processed {
    /// The batch is sent on to the other clients: it still has items.
    pub should_broadcast: bool,
    /// The narrative fetches to start.
    pub jobs: Vec<FetchJob>,
}

/// Notes the symbols of the items of a hot list, in order.
pub fn note_hot_symbols(table: &mut SymbolTable, items: &Vec<HotlistItem>)
    ensures
        final(table)@ == symbols_after(
            old(table)@,
            hot_addresses(items@),
            hot_symbols(items@),
            items.len() as int,
        ),
{
    let mut i: usize = 0;
    while i < items.len()
        invariant
            i <= items.len(),
            table@ == symbols_after(
                old(table)@,
                hot_addresses(items@),
                hot_symbols(items@),
                i as int,
            ),
        decreases items.len() - i,
    {
        table.note(items[i].contract_address.as_str(), items[i].symbol.as_str());
        i += 1;
    }
}

/// Notes the symbols of meme items, in order.
pub fn note_meme_symbols(table: &mut SymbolTable, items: &Vec<MemeScanItem>)
    ensures
        final(table)@ == symbols_after(
            old(table)@,
            meme_addresses(items@),
            meme_symbols(items@),
            items.len() as int,
        ),
{
    let mut i: usize = 0;
    while i < items.len()
        invariant
            i <= items.len(),
            table@ == symbols_after(
                old(table)@,
                meme_addresses(items@),
                meme_symbols(items@),
                i as int,
            ),
        decreases items.len() - i,
    {
        table.note(items[i].contract_address.as_str(), items[i].symbol.as_str());
        i += 1;
    }
}

/// Works through a batch of the hot list whose items the caller has already
/// held against the minimum amount: their symbols are noted, and the batch
/// is sent on if it has items left.
pub fn process_hotlist(data: &Vec<HotlistItem>, symbols: &mut SymbolTable) -> (r: Processed)
    ensures
        r.should_broadcast == (data.len() > 0),
        r.jobs.len() == 0,
        final(symbols)@ == symbols_after(
            old(symbols)@,
            hot_addresses(data@),
            hot_symbols(data@),
            data.len() as int,
        ),
{
    note_hot_symbols(symbols, data);
    Processed { should_broadcast: data.len() > 0, jobs: Vec::new() }
}

/// What working through a batch of new or migrated tokens comes to, from
/// the items `before` to the items `after`: the items without a symbol are
/// gone; fetches are planned for the rest, against the cache `cache`, which
/// becomes `cache_after`; each item has the narrative that the cache gives
/// it and is otherwise as it was; the symbols of the items are noted in `symbols`, which becomes
/// `symbols_now`; and the batch is sent on if it has items left.
pub open spec fn memes_processed(
    before: Seq<MemeScanItem>,
    after: Seq<MemeScanItem>,
    cache: Map<Seq<char>, Seq<char>>,
    cache_after: Map<Seq<char>, Seq<char>>,
    symbols: Map<Seq<char>, Seq<char>>,
    symbols_now: Map<Seq<char>, Seq<char>>,
    r: Processed,
) -> bool {
    let named = named_of(before, before.len() as int);
    let plan = crate::narrative::plan_after(cache, named, named.len() as int);
    &&& after.len() == named.len()
    &&& r.should_broadcast == (after.len() > 0)
    &&& cache_after == plan.cache
    &&& crate::narrative::job_views(r.jobs@) == plan.jobs
    &&& forall|k: int|
        0 <= k < after.len() ==> {
            &&& (#[trigger] after[k]).otherwise_same(&named[k])
            &&& after[k].narrative_view() == crate::narrative::attached(cache_after, named[k])
        }
    &&& symbols_now == symbols_after(
        symbols,
        meme_addresses(after),
        meme_symbols(after),
        after.len() as int,
    )
}

/// Works through a batch of new or migrated tokens: the items without a
/// symbol are dropped; narratives are planned and attached for the rest;
/// their symbols are noted; and the batch is sent on if it has items left.
pub fn process_memes(
    data: &mut Vec<MemeScanItem>,
    cache: &mut NarrativeCache,
    symbols: &mut SymbolTable,
) -> (r: Processed)
    ensures
        memes_processed(
            old(data)@,
            final(data)@,
            old(cache)@,
            final(cache)@,
            old(symbols)@,
            final(symbols)@,
            r,
        ),
{
    drop_unnamed(data);
    let jobs = enrich_any_data(data, cache);
    note_meme_symbols(symbols, data);
    Processed { should_broadcast: data.len() > 0, jobs }
}

/// Works through a snapshot batch by the list it belongs to: a hot list has
/// its symbols noted; a list of new or of migrated tokens is worked through
/// as [`process_memes`] does; a batch of an unknown list is left alone and
/// not sent on. The items of a hot list are taken as the caller has held
/// them against the minimum amount.
pub fn process_payload(
    payload: &mut DataPayload,
    cache: &mut NarrativeCache,
    symbols: &mut SymbolTable,
) -> (r: Processed)
    ensures
        match *old(payload) {
            DataPayload::Hotlist { kind, data } => {
                &&& *final(payload) == *old(payload)
                &&& final(cache)@ == old(cache)@
                &&& r.should_broadcast == (data.len() > 0)
                &&& r.jobs.len() == 0
                &&& final(symbols)@ == symbols_after(
                    old(symbols)@,
                    hot_addresses(data@),
                    hot_symbols(data@),
                    data.len() as int,
                )
            },
            DataPayload::MemeNew { kind, data } => {
                &&& *final(payload) matches DataPayload::MemeNew { kind: kind_now, data: data_now }
                &&& kind_now == kind
                &&& memes_processed(
                    data@,
                    data_now@,
                    old(cache)@,
                    final(cache)@,
                    old(symbols)@,
                    final(symbols)@,
                    r,
                )
            },
            DataPayload::MemeMigrated { kind, data } => {
                &&& *final(payload) matches DataPayload::MemeMigrated {
                    kind: kind_now,
                    data: data_now,
                }
                &&& kind_now == kind
                &&& memes_processed(
                    data@,
                    data_now@,
                    old(cache)@,
                    final(cache)@,
                    old(symbols)@,
                    final(symbols)@,
                    r,
                )
            },
            DataPayload::Unknown => {
                &&& *final(payload) == *old(payload)
                &&& final(cache)@ == old(cache)@
                &&& final(symbols)@ == old(symbols)@
                &&& !r.should_broadcast
                &&& r.jobs.len() == 0
            },
        },
{
    match payload {
        DataPayload::Hotlist { kind: _, data } => process_hotlist(data, symbols),
        DataPayload::MemeNew { kind: _, data } => process_memes(data, cache, symbols),
        DataPayload::MemeMigrated { kind: _, data } => process_memes(data, cache, symbols),
        DataPayload::Unknown => Processed { should_broadcast: false, jobs: Vec::new() },
    }
}

} // verus!
