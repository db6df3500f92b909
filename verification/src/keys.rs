//! The key grammar: chains and pool ids, canonical addresses, room keys and
//! upstream stream names, and how each is read back.

use vstd::prelude::*;
use vstd::string::*;
use crate::decimal::{append_i64, decimal_int, lemma_decimal_chars, lemma_parse_of_decimal,
    parse_i64, parse_i64_spec};
use crate::text::{all_ascii, ascii_lowered, free_of, lemma_lowercase_of_small, lemma_split_cons,
    lemma_split_free, lowercase, lowercase_of, same_text, split, split_spec, starts_with,
    starts_with_spec, texts};
use crate::types::KlineSubscribePayload;

verus! {

/// Pool id of the BNB chain.
pub const POOL_BSC: i64 = 14;

/// Pool id of Solana, the one chain whose addresses keep their case.
pub const POOL_SOLANA: i64 = 16;

/// Pool id of Base.
pub const POOL_BASE: i64 = 199;

/// The pool id that a chain name stands for, whatever its case: `bsc` is 14,
/// `sol` and `solana` are 16, `base` is 199; any other name has none.
pub open spec fn pool_id_spec(chain: Seq<char>) -> Option<int> {
    let c = lowercase_of(chain);
    if c == "bsc"@ {
        Some(14)
    } else if c == "sol"@ || c == "solana"@ {
        Some(16)
    } else if c == "base"@ {
        Some(199)
    } else {
        None
    }
}

/// The pool ids of the chains by their usual names.
pub proof fn lemma_pool_ids()
    ensures
        pool_id_spec("bsc"@) == Some(14int),
        pool_id_spec("sol"@) == Some(16int),
        pool_id_spec("solana"@) == Some(16int),
        pool_id_spec("base"@) == Some(199int),
        pool_id_spec("BSC"@) == Some(14int),
        pool_id_spec("eth"@) is None,
{
    reveal_strlit("bsc");
    reveal_strlit("sol");
    reveal_strlit("solana");
    reveal_strlit("base");
    reveal_strlit("BSC");
    reveal_strlit("eth");
    lemma_lowercase_of_small("bsc"@);
    lemma_lowercase_of_small("sol"@);
    lemma_lowercase_of_small("solana"@);
    lemma_lowercase_of_small("base"@);
    lemma_lowercase_of_small("eth"@);
    assert(all_ascii("BSC"@));
    assert(ascii_lowered("BSC"@) =~= "bsc"@);
    assert("sol"@ != "bsc"@) by {
        assert("sol"@[0] != "bsc"@[0]);
    }
    assert("solana"@ != "bsc"@) by {
        assert("solana"@.len() != "bsc"@.len());
    }
    assert("solana"@ != "sol"@) by {
        assert("solana"@.len() != "sol"@.len());
    }
    assert("base"@ != "bsc"@ && "base"@ != "sol"@ && "base"@ != "solana"@) by {
        assert("base"@.len() == 4);
        assert("solana"@.len() == 6);
    }
    assert("eth"@ != "bsc"@ && "eth"@ != "sol"@ && "eth"@ != "solana"@ && "eth"@ != "base"@) by {
        assert("eth"@[0] == 'e');
        assert("bsc"@[0] == 'b');
        assert("sol"@[0] == 's');
        assert("solana"@.len() == 6);
        assert("base"@.len() == 4);
    }
}

/// Looks up the pool id of a chain name.
pub fn pool_id_for_chain(chain: &str) -> (r: Option<i64>)
    ensures
        match r {
            Some(id) => pool_id_spec(chain@) == Some(id as int),
            None => pool_id_spec(chain@) is None,
        },
{
    let lowered = lowercase(chain);
    let c = lowered.as_str();
    if same_text(c, "bsc") {
        Some(POOL_BSC)
    } else if same_text(c, "sol") || same_text(c, "solana") {
        Some(POOL_SOLANA)
    } else if same_text(c, "base") {
        Some(POOL_BASE)
    } else {
        None
    }
}

/// The canonical form of an address: as it is on Solana, lower-cased on every
/// other chain.
pub open spec fn normalize_spec(pool_id: int, address: Seq<char>) -> Seq<char> {
    if pool_id == 16 {
        address
    } else {
        lowercase_of(address)
    }
}

/// Brings an address into its canonical form for the chain with `pool_id`.
pub fn normalize_address(pool_id: i64, address: &str) -> (r: String)
    ensures
        r@ == normalize_spec(pool_id as int, address@),
{
    if pool_id == POOL_SOLANA {
        String::from_str(address)
    } else {
        lowercase(address)
    }
}

/// The chain id that the narrative service knows a chain by, whatever the
/// case of its name.
pub open spec fn chain_id_spec(chain: Seq<char>) -> Option<int> {
    let c = lowercase_of(chain);
    if c == "bsc"@ {
        Some(56)
    } else if c == "eth"@ || c == "ethereum"@ {
        Some(1)
    } else if c == "base"@ {
        Some(8453)
    } else if c == "arb"@ || c == "arbitrum"@ {
        Some(42161)
    } else if c == "matic"@ || c == "polygon"@ {
        Some(137)
    } else if c == "op"@ || c == "optimism"@ {
        Some(10)
    } else if c == "avax"@ || c == "avalanche"@ {
        Some(43114)
    } else {
        None
    }
}

/// Looks up the chain id of a chain name.
pub fn get_chain_id(chain: &str) -> (r: Option<u64>)
    ensures
        match r {
            Some(id) => chain_id_spec(chain@) == Some(id as int),
            None => chain_id_spec(chain@) is None,
        },
{
    let lowered = lowercase(chain);
    let c = lowered.as_str();
    if same_text(c, "bsc") {
        Some(56)
    } else if same_text(c, "eth") || same_text(c, "ethereum") {
        Some(1)
    } else if same_text(c, "base") {
        Some(8453)
    } else if same_text(c, "arb") || same_text(c, "arbitrum") {
        Some(42161)
    } else if same_text(c, "matic") || same_text(c, "polygon") {
        Some(137)
    } else if same_text(c, "op") || same_text(c, "optimism") {
        Some(10)
    } else if same_text(c, "avax") || same_text(c, "avalanche") {
        Some(43114)
    } else {
        None
    }
}

// ---------------------------------------------------------------------------
// Building keys
// ---------------------------------------------------------------------------

/// The key of the room of one token and interval, which is also the name of
/// its upstream candle stream: `kl@<pool>@<address>@<interval>`.
pub open spec fn room_key_spec(pool_id: int, address: Seq<char>, interval: Seq<char>) -> Seq<
    char,
> {
    "kl"@ + seq!['@'] + decimal_int(pool_id) + seq!['@'] + address + seq!['@'] + interval
}

/// The name of the upstream trade stream of one token: `tx@<pool>_<address>`.
pub open spec fn tick_stream_spec(pool_id: int, address: Seq<char>) -> Seq<char> {
    "tx"@ + seq!['@'] + decimal_int(pool_id) + seq!['_'] + address
}

/// The key under which the candles of one request are stored:
/// `<address>@<chain>@<interval>`.
pub open spec fn primary_key_spec(address: Seq<char>, chain: Seq<char>, interval: Seq<char>) -> Seq<
    char,
> {
    address + seq!['@'] + chain + seq!['@'] + interval
}

/// Appends a one-character literal whose character is `c`.
fn append_sep(s: &mut String, c: char)
    ensures
        final(s)@ == old(s)@ + seq![c],
{
    crate::text::push_char(s, c);
    assert(s@ =~= old(s)@ + seq![c]);
}

/// Builds the room key of `(pool_id, address, interval)`; `address` is taken
/// as it is, so pass the canonical form.
pub fn room_key(pool_id: i64, address: &str, interval: &str) -> (r: String)
    ensures
        r@ == room_key_spec(pool_id as int, address@, interval@),
{
    let mut s = String::from_str("kl");
    append_sep(&mut s, '@');
    append_i64(&mut s, pool_id);
    append_sep(&mut s, '@');
    s.append(address);
    append_sep(&mut s, '@');
    s.append(interval);
    s
}

/// Builds the name of the candle stream of `(pool_id, address, interval)`,
/// which is the room key.
pub fn kline_stream(pool_id: i64, address: &str, interval: &str) -> (r: String)
    ensures
        r@ == room_key_spec(pool_id as int, address@, interval@),
{
    room_key(pool_id, address, interval)
}

/// Builds the name of the trade stream of `(pool_id, address)`.
pub fn tick_stream(pool_id: i64, address: &str) -> (r: String)
    ensures
        r@ == tick_stream_spec(pool_id as int, address@),
{
    let mut s = String::from_str("tx");
    append_sep(&mut s, '@');
    append_i64(&mut s, pool_id);
    append_sep(&mut s, '_');
    s.append(address);
    s
}

/// Builds the storage key of a history request from its three fields, each
/// taken as the client sent it.
pub fn primary_key(address: &str, chain: &str, interval: &str) -> (r: String)
    ensures
        r@ == primary_key_spec(address@, chain@, interval@),
{
    let mut s = String::from_str(address);
    append_sep(&mut s, '@');
    s.append(chain);
    append_sep(&mut s, '@');
    s.append(interval);
    s
}

/// Builds the storage key of a history request.
pub fn get_primary_key(p: &KlineSubscribePayload) -> (r: String)
    ensures
        r@ == primary_key_spec(p.address@, p.chain@, p.interval@),
{
    primary_key(p.address.as_str(), p.chain.as_str(), p.interval.as_str())
}

// ---------------------------------------------------------------------------
// Reading keys back
// ---------------------------------------------------------------------------

/// What an upstream stream carries, told by the prefix of its name.
#[derive(Debug, Clone, Copy, PartialEq, Eq, Structural)]
pub enum StreamKind {
    /// Trades: the name begins with `tx@`.
    Tick,
    /// Candles: the name begins with `kl@`.
    Kline,
    /// Neither.
    Other,
}

/// The kind of the stream with the given name.
pub open spec fn stream_kind_spec(name: Seq<char>) -> StreamKind {
    if starts_with_spec(name, "tx@"@) {
        StreamKind::Tick
    } else if starts_with_spec(name, "kl@"@) {
        StreamKind::Kline
    } else {
        StreamKind::Other
    }
}

/// Tells the kind of a stream by the prefix of its name.
pub fn stream_kind(name: &str) -> (k: StreamKind)
    ensures
        k == stream_kind_spec(name@),
{
    if starts_with(name, "tx@") {
        StreamKind::Tick
    } else if starts_with(name, "kl@") {
        StreamKind::Kline
    } else {
        StreamKind::Other
    }
}

/// The fields of a room key or candle stream name.
pub struct RoomName {
    pub pool_id: i64,
    pub address: String,
    pub interval: String,
}

/// What a room key reads as: it must have exactly four pieces between `@`;
/// the second is the pool id, 0 where it is no number, the third the address
/// and the fourth the interval.
pub open spec fn parse_room_key_spec(key: Seq<char>) -> Option<(int, Seq<char>, Seq<char>)> {
    let parts = split_spec(key, '@');
    if parts.len() == 4 {
        let pool = match parse_i64_spec(parts[1]) {
            Some(p) => p,
            None => 0,
        };
        Some((pool, parts[2], parts[3]))
    } else {
        None
    }
}

/// The address that a room key names, if it has the four pieces of one.
pub open spec fn key_address(key: Seq<char>) -> Option<Seq<char>> {
    match parse_room_key_spec(key) {
        Some(f) => Some(f.1),
        None => None,
    }
}

/// Reads a room key, or a candle stream name, back into its fields.
pub fn parse_room_key(key: &str) -> (r: Option<RoomName>)
    ensures
        match r {
            Some(n) => parse_room_key_spec(key@) == Some(
                (n.pool_id as int, n.address@, n.interval@),
            ),
            None => parse_room_key_spec(key@) is None,
        },
{
    let mut parts = split(key, '@');
    if parts.len() != 4 {
        return None;
    }
    assert(texts(parts@)[1] == parts@[1]@);
    assert(texts(parts@)[2] == parts@[2]@);
    assert(texts(parts@)[3] == parts@[3]@);
    let pool_id: i64 = match parse_i64(parts[1].as_str()) {
        Some(p) => p,
        None => 0,
    };
    let interval = parts.remove(3);
    let address = parts.remove(2);
    Some(RoomName { pool_id, address, interval })
}

/// What a trade stream name reads as: two pieces around one `@`, the second
/// of at least two pieces between `_`, which are the pool id (0 where it is
/// no number) and the address.
pub open spec fn parse_tick_stream_spec(stream: Seq<char>) -> Option<(int, Seq<char>)> {
    let parts = split_spec(stream, '@');
    if parts.len() == 2 {
        let params = split_spec(parts[1], '_');
        if params.len() >= 2 {
            let pool = match parse_i64_spec(params[0]) {
                Some(p) => p,
                None => 0,
            };
            Some((pool, params[1]))
        } else {
            None
        }
    } else {
        None
    }
}

/// The pool id and the address that a trade stream name carries.
pub struct TickName {
    pub pool_id: i64,
    pub address: String,
}

/// Reads a trade stream name back into pool id and address.
pub fn parse_tick_stream(stream: &str) -> (r: Option<TickName>)
    ensures
        match r {
            Some(n) => parse_tick_stream_spec(stream@) == Some((n.pool_id as int, n.address@)),
            None => parse_tick_stream_spec(stream@) is None,
        },
{
    let parts = split(stream, '@');
    if parts.len() != 2 {
        return None;
    }
    assert(texts(parts@)[1] == parts@[1]@);
    let mut params = split(parts[1].as_str(), '_');
    if params.len() < 2 {
        return None;
    }
    assert(texts(params@)[0] == params@[0]@);
    assert(texts(params@)[1] == params@[1]@);
    let pool_id: i64 = match parse_i64(params[0].as_str()) {
        Some(p) => p,
        None => 0,
    };
    let address = params.remove(1);
    Some(TickName { pool_id, address })
}

// ---------------------------------------------------------------------------
// Laws of the grammar
// ---------------------------------------------------------------------------

/// A room key reads back as the fields it was built from, provided that
/// neither the address nor the interval holds an `@`.
pub proof fn lemma_room_key_round_trip(pool_id: int, address: Seq<char>, interval: Seq<char>)
    requires
        i64::MIN <= pool_id <= i64::MAX,
        free_of(address, '@'),
        free_of(interval, '@'),
    ensures
        parse_room_key_spec(room_key_spec(pool_id, address, interval)) == Some(
            (pool_id, address, interval),
        ),
        key_address(room_key_spec(pool_id, address, interval)) == Some(address),
{
    reveal_strlit("kl");
    let d = decimal_int(pool_id);
    let tail2 = address + seq!['@'] + interval;
    let tail1 = d + seq!['@'] + tail2;
    let key = room_key_spec(pool_id, address, interval);
    assert(key =~= "kl"@ + seq!['@'] + tail1);
    assert(free_of("kl"@, '@'));
    lemma_decimal_chars(pool_id, '@');
    lemma_split_cons("kl"@, tail1, '@');
    lemma_split_cons(d, tail2, '@');
    lemma_split_cons(address, interval, '@');
    lemma_split_free(interval, '@');
    let parts = split_spec(key, '@');
    assert(parts =~= seq!["kl"@, d, address, interval]);
    lemma_parse_of_decimal(pool_id);
}

/// Two room keys built from `@`-free addresses and intervals are equal only
/// if they were built from the same pool id, address and interval.
pub proof fn lemma_room_key_injective(
    pool_a: int,
    address_a: Seq<char>,
    interval_a: Seq<char>,
    pool_b: int,
    address_b: Seq<char>,
    interval_b: Seq<char>,
)
    requires
        i64::MIN <= pool_a <= i64::MAX,
        i64::MIN <= pool_b <= i64::MAX,
        free_of(address_a, '@'),
        free_of(interval_a, '@'),
        free_of(address_b, '@'),
        free_of(interval_b, '@'),
        room_key_spec(pool_a, address_a, interval_a) == room_key_spec(pool_b, address_b, interval_b),
    ensures
        pool_a == pool_b,
        address_a == address_b,
        interval_a == interval_b,
{
    lemma_room_key_round_trip(pool_a, address_a, interval_a);
    lemma_room_key_round_trip(pool_b, address_b, interval_b);
}

/// A trade stream name reads back as the pool id and address it was built
/// from, provided that the address holds neither `@` nor `_`.
pub proof fn lemma_tick_stream_round_trip(pool_id: int, address: Seq<char>)
    requires
        i64::MIN <= pool_id <= i64::MAX,
        free_of(address, '@'),
        free_of(address, '_'),
    ensures
        parse_tick_stream_spec(tick_stream_spec(pool_id, address)) == Some((pool_id, address)),
{
    reveal_strlit("tx");
    let d = decimal_int(pool_id);
    let tail = d + seq!['_'] + address;
    let name = tick_stream_spec(pool_id, address);
    assert(name =~= "tx"@ + seq!['@'] + tail);
    assert(free_of("tx"@, '@'));
    lemma_decimal_chars(pool_id, '@');
    lemma_decimal_chars(pool_id, '_');
    assert(free_of(tail, '@'));
    lemma_split_cons("tx"@, tail, '@');
    lemma_split_free(tail, '@');
    assert(split_spec(name, '@') =~= seq!["tx"@, tail]);
    lemma_split_cons(d, address, '_');
    lemma_split_free(address, '_');
    assert(split_spec(tail, '_') =~= seq![d, address]);
    lemma_parse_of_decimal(pool_id);
}

} // verus!
