use backend::clock::{bucket_of, candle_seconds, candle_seconds_of_text, euclid_rem, liquidity_cutoff,
    minute_bucket, stored_seconds};
use backend::config::{Config, ALERT_COOLDOWN_MS, LAZY_UNSUBSCRIBE_DELAY, MAX_ALERT_HISTORY, MAX_KLINES};
use backend::decimal::{i64_to_chars, parse_i64, u64_to_chars};
use backend::interval::{format_interval_for_api, interval_to_ms, liquidity_bucket_secs};
use backend::keys::{get_chain_id, get_primary_key, kline_stream, normalize_address, parse_room_key, parse_tick_stream,
    pool_id_for_chain, primary_key, room_key, tick_stream};
use backend::text::{chars_of, contains, eq_ignore_ascii_case, same_text, split, starts_with, string_of};
use backend::types::{AlertType, DataAction, KlineSubscribePayload, TaskType};

fn text(v: Vec<char>) -> String {
    v.into_iter().collect()
}

#[test]
fn pool_ids_by_chain() {
    assert_eq!(pool_id_for_chain("bsc"), Some(14));
    assert_eq!(pool_id_for_chain("BSC"), Some(14));
    assert_eq!(pool_id_for_chain("sol"), Some(16));
    assert_eq!(pool_id_for_chain("Solana"), Some(16));
    assert_eq!(pool_id_for_chain("base"), Some(199));
    assert_eq!(pool_id_for_chain("eth"), None);
    assert_eq!(pool_id_for_chain(""), None);
}

#[test]
fn addresses_are_lowercased_except_on_solana() {
    assert_eq!(normalize_address(14, "0xABCdef"), "0xabcdef");
    assert_eq!(normalize_address(199, "0xABCdef"), "0xabcdef");
    assert_eq!(normalize_address(16, "So1anaMixedCase"), "So1anaMixedCase");
    assert_eq!(normalize_address(0, "ABC"), "abc");
}

#[test]
fn normalizing_twice_changes_nothing() {
    let once = normalize_address(14, "0xAbC");
    assert_eq!(normalize_address(14, &once), once);
    let sol = normalize_address(16, "AbC");
    assert_eq!(normalize_address(16, &sol), sol);
}

#[test]
fn chain_ids_for_the_narrative_service() {
    assert_eq!(get_chain_id("bsc"), Some(56));
    assert_eq!(get_chain_id("ETH"), Some(1));
    assert_eq!(get_chain_id("ethereum"), Some(1));
    assert_eq!(get_chain_id("base"), Some(8453));
    assert_eq!(get_chain_id("arb"), Some(42161));
    assert_eq!(get_chain_id("arbitrum"), Some(42161));
    assert_eq!(get_chain_id("matic"), Some(137));
    assert_eq!(get_chain_id("polygon"), Some(137));
    assert_eq!(get_chain_id("op"), Some(10));
    assert_eq!(get_chain_id("optimism"), Some(10));
    assert_eq!(get_chain_id("avax"), Some(43114));
    assert_eq!(get_chain_id("Avalanche"), Some(43114));
    assert_eq!(get_chain_id("sol"), None);
}

#[test]
fn keys_are_written_as_the_grammar_says() {
    assert_eq!(room_key(14, "0xabc", "1m"), "kl@14@0xabc@1m");
    assert_eq!(kline_stream(199, "0xdef", "15m"), "kl@199@0xdef@15m");
    assert_eq!(tick_stream(14, "0xabc"), "tx@14_0xabc");
    assert_eq!(tick_stream(-3, "x"), "tx@-3_x");
    assert_eq!(primary_key("0xdef", "base", "15m"), "0xdef@base@15m");
    let payload = KlineSubscribePayload {
        address: "0xDEF".to_string(),
        chain: "Base".to_string(),
        interval: "15m".to_string(),
    };
    assert_eq!(get_primary_key(&payload), "0xDEF@Base@15m");
}

#[test]
fn room_keys_read_back() {
    let name = parse_room_key("kl@14@0xabc@1m").unwrap();
    assert_eq!(name.pool_id, 14);
    assert_eq!(name.address, "0xabc");
    assert_eq!(name.interval, "1m");
    let odd = parse_room_key("kl@x@addr@5m").unwrap();
    assert_eq!(odd.pool_id, 0);
    assert!(parse_room_key("kl@14@0xabc").is_none());
    assert!(parse_room_key("kl@14@0x@abc@1m").is_none());
    assert!(parse_room_key("").is_none());
}

#[test]
fn room_key_round_trip_on_values() {
    for (pool, addr, interval) in [(14i64, "0xabc", "1m"), (16, "SoLaNa", "1h"), (-7, "", "")] {
        let key = room_key(pool, addr, interval);
        let name = parse_room_key(&key).unwrap();
        assert_eq!((name.pool_id, name.address.as_str(), name.interval.as_str()), (pool, addr, interval));
    }
}

#[test]
fn tick_streams_read_back() {
    let name = parse_tick_stream("tx@14_0xabc").unwrap();
    assert_eq!(name.pool_id, 14);
    assert_eq!(name.address, "0xabc");
    let more = parse_tick_stream("tx@16_Abc_rest").unwrap();
    assert_eq!(more.address, "Abc");
    assert!(parse_tick_stream("tx@14").is_none());
    assert!(parse_tick_stream("tx14_0xabc").is_none());
    assert!(parse_tick_stream("tx@14_a@b").is_none());
}

#[test]
fn splitting_keeps_empty_pieces() {
    assert_eq!(split("a@b@c", '@'), vec!["a", "b", "c"]);
    assert_eq!(split("", '@'), vec![""]);
    assert_eq!(split("@", '@'), vec!["", ""]);
    assert_eq!(split("a@", '@'), vec!["a", ""]);
    assert_eq!(split("abc", '@'), vec!["abc"]);
}

#[test]
fn searching_text() {
    assert!(contains("{\"result\":null,\"id\":1}", "\"result\":null"));
    assert!(!contains("{\"result\": null}", "\"result\":null"));
    assert!(contains("abc", ""));
    assert!(!contains("", "a"));
    assert!(starts_with("HTTP/1.1 200 OK", "HTTP/1.1 200"));
    assert!(!starts_with("HTTP/1.1 20", "HTTP/1.1 200"));
    assert!(same_text("none", "none"));
    assert!(!same_text("none", "None"));
    assert!(eq_ignore_ascii_case("0xABC", "0xabc"));
    assert!(!eq_ignore_ascii_case("0xABC", "0xabd"));
    assert!(!eq_ignore_ascii_case("abc", "abcd"));
}

#[test]
fn characters_round_trip() {
    let s = "kl@14@0xabc@1m \u{00e9}\u{4e2d}";
    assert_eq!(string_of(&chars_of(s)), s);
}

#[test]
fn decimal_notation() {
    assert_eq!(text(u64_to_chars(0)), "0");
    assert_eq!(text(u64_to_chars(443)), "443");
    assert_eq!(text(u64_to_chars(u64::MAX)), "18446744073709551615");
    assert_eq!(text(i64_to_chars(-14)), "-14");
    assert_eq!(text(i64_to_chars(i64::MIN)), "-9223372036854775808");
    assert_eq!(text(i64_to_chars(i64::MAX)), "9223372036854775807");
}

#[test]
fn reading_integers() {
    assert_eq!(parse_i64("14"), Some(14));
    assert_eq!(parse_i64("+14"), Some(14));
    assert_eq!(parse_i64("-14"), Some(-14));
    assert_eq!(parse_i64("007"), Some(7));
    assert_eq!(parse_i64(""), None);
    assert_eq!(parse_i64("-"), None);
    assert_eq!(parse_i64("1a"), None);
    assert_eq!(parse_i64(" 1"), None);
    assert_eq!(parse_i64("9223372036854775807"), Some(i64::MAX));
    assert_eq!(parse_i64("9223372036854775808"), None);
    assert_eq!(parse_i64("-9223372036854775808"), Some(i64::MIN));
    assert_eq!(parse_i64("-9223372036854775809"), None);
    assert_eq!(parse_i64("99999999999999999999999999"), None);
}

#[test]
fn reading_integers_agrees_with_std() {
    for s in ["0", "-0", "+0", "12345", "-98765", "1e3", "0x10", "--1", "+-1", "18446744073709551616"] {
        assert_eq!(parse_i64(s), s.parse::<i64>().ok(), "{}", s);
    }
}

#[test]
fn interval_lengths() {
    assert_eq!(interval_to_ms("1m"), 60_000);
    assert_eq!(interval_to_ms("5m"), 300_000);
    assert_eq!(interval_to_ms("15m"), 900_000);
    assert_eq!(interval_to_ms("1h"), 3_600_000);
    assert_eq!(interval_to_ms("4h"), 14_400_000);
    assert_eq!(interval_to_ms("1d"), 86_400_000);
    assert_eq!(interval_to_ms("1w"), 0);
    assert_eq!(interval_to_ms("m"), 0);
    assert_eq!(interval_to_ms(""), 0);
    assert_eq!(interval_to_ms("15"), 0);
    assert_eq!(interval_to_ms("1mm"), 0);
    assert_eq!(interval_to_ms("99999999999999999999m"), 0);
    assert_eq!(interval_to_ms("9223372036854775807d"), 0);
}

#[test]
fn intervals_for_the_candle_service() {
    assert_eq!(format_interval_for_api("1m"), "1min");
    assert_eq!(format_interval_for_api("15m"), "15min");
    assert_eq!(format_interval_for_api("1h"), "1h");
    assert_eq!(format_interval_for_api("m"), "min");
    assert_eq!(format_interval_for_api(""), "");
}

#[test]
fn liquidity_buckets_by_interval() {
    assert_eq!(liquidity_bucket_secs("5m"), 300);
    assert_eq!(liquidity_bucket_secs("15m"), 900);
    assert_eq!(liquidity_bucket_secs("1h"), 3600);
    assert_eq!(liquidity_bucket_secs("1m"), 60);
    assert_eq!(liquidity_bucket_secs("1d"), 60);
}

#[test]
fn candle_times() {
    assert_eq!(candle_seconds(1_700_000_123_456), 1_700_000_123);
    assert_eq!(candle_seconds(999), 0);
    assert_eq!(candle_seconds(-1_500), -1);
    assert_eq!(candle_seconds(i64::MAX), 0);
    assert_eq!(candle_seconds(i64::MIN), 0);
    assert_eq!(candle_seconds_of_text("1700000123456"), 1_700_000_123);
    assert_eq!(candle_seconds_of_text("soon"), 0);
    assert_eq!(stored_seconds(1_700_000_000), 1_700_000_000);
    assert_eq!(stored_seconds(i64::MAX), 0);
}

#[test]
fn buckets_are_floors() {
    assert_eq!(bucket_of(125, 60), 120);
    assert_eq!(bucket_of(120, 60), 120);
    assert_eq!(bucket_of(-1, 60), -60);
    assert_eq!(bucket_of(-60, 60), -60);
    assert_eq!(bucket_of(0, 7), 0);
    assert_eq!(euclid_rem(-1, 60), 59);
    assert_eq!(euclid_rem(61, 60), 1);
    assert_eq!(minute_bucket(1_700_000_123), 1_700_000_100);
    assert_eq!(liquidity_cutoff(1_700_000_000), 1_699_913_600);
    assert_eq!(liquidity_cutoff(i64::MIN + 5), i64::MIN);
}

#[test]
fn default_settings() {
    let c = Config::new();
    assert_eq!(c.cache_dir, "./image_cache");
    assert_eq!(c.binance_wss_url, "wss://nbstream.binance.com/w3w/stream");
    assert_eq!(c.proxy_addr, "127.0.0.1:1080");
    assert_eq!(c.heartbeat_interval, std::time::Duration::from_secs(20));
    assert_eq!(c.heartbeat_interval.subsec_nanos(), 0);
    assert_eq!(Config::new().heartbeat_interval, c.heartbeat_interval);
    assert_eq!(c.cache_cleanup_interval, std::time::Duration::from_secs(3600));
    assert_eq!(c.max_cache_size_mb, 70);
    assert_eq!(c.desired_fields.len(), 17);
    assert_eq!(c.desired_fields[0], "icon");
    assert_eq!(c.desired_fields[6], "contractAddress");
    assert_eq!(c.desired_fields[16], "priceChange24h");
    assert!(!c.is_direct());
    let mut direct = c.clone();
    direct.proxy_addr = "none".to_string();
    assert!(direct.is_direct());
    direct.proxy_addr = String::new();
    assert!(direct.is_direct());
    assert_eq!(MAX_KLINES, 500);
    assert_eq!(MAX_ALERT_HISTORY, 50);
    assert_eq!(ALERT_COOLDOWN_MS, 60_000);
    assert_eq!(LAZY_UNSUBSCRIBE_DELAY, 60);
}

#[test]
fn tags_and_labels() {
    assert_eq!(TaskType::Kline.label(), "KLINE_MGR");
    assert_eq!(TaskType::Tick.label(), "TICK_MGR");
    assert_eq!(AlertType::Volume1m.tag(), "volume1m");
    assert_eq!(AlertType::Volume5m.tag(), "volume5m");
    assert_eq!(AlertType::PriceChange1m.tag(), "priceChange1m");
    assert_eq!(AlertType::PriceChange5m.tag(), "priceChange5m");
    assert_eq!(DataAction::from_tag("snapshot"), DataAction::Snapshot);
    assert_eq!(DataAction::from_tag("update"), DataAction::Update);
    assert_eq!(DataAction::from_tag("full"), DataAction::Full);
    assert_eq!(DataAction::from_tag("delta"), DataAction::Unknown);
}
