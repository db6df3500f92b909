use backend::alerts::{cooldown_key, copy_entry, AlertCandidate, AlertEngine};
use backend::narrative::{body_text, enrich_any_data, is_gzip, narrative_url, pick_narrative,
    FetchOutcome, NarrativeCache, NarrativeEntity};
use backend::snapshot::{category_of, drop_unnamed, process_hotlist, process_memes, process_payload,
    Category, DataPayload, HotlistItem, MemeScanItem, SymbolTable};
use backend::pool::FetchFailure;
use backend::types::{AlertType, DataAction, NarrativeData, NarrativeResponse, NarrativeText};
use std::io::Write;

fn candidate(address: &str, rule: AlertType) -> AlertCandidate {
    AlertCandidate {
        chain: "bsc".to_string(),
        contract_address: address.to_string(),
        symbol: "TKN".to_string(),
        alert_type: rule,
        message: format!("TKN {:?}", rule),
    }
}

#[test]
fn alert_cooldown() {
    let mut e = AlertEngine::new();
    let t0 = 1_700_000_000_000i64;
    let first = e.try_trigger_alert("bsc", "0xABC", "TKN", AlertType::Volume1m, "m1".to_string(), t0);
    let first = first.unwrap();
    assert_eq!(first.chain, "bsc");
    assert_eq!(first.contract_address, "0xABC");
    assert_eq!(first.symbol, "TKN");
    assert_eq!(first.message, "m1");
    assert_eq!(first.timestamp, t0);
    assert_eq!(first.alert_type, AlertType::Volume1m);
    assert!(!first.id.is_empty());
    let second =
        e.try_trigger_alert("bsc", "0xabc", "TKN", AlertType::Volume1m, "m2".to_string(), t0 + 30_000);
    assert!(second.is_none());
    assert_eq!(e.history().len(), 1);
    assert_eq!(e.last_fired("bsc:0xabc:volume1m"), Some(t0));
}

#[test]
fn cooldown_ends_after_sixty_seconds() {
    let mut e = AlertEngine::new();
    let t0 = 1_700_000_000_000i64;
    assert!(e.try_trigger_alert("bsc", "0xabc", "T", AlertType::Volume5m, "a".into(), t0).is_some());
    assert!(e.try_trigger_alert("bsc", "0xabc", "T", AlertType::Volume5m, "b".into(), t0 + 59_999).is_none());
    assert!(e.try_trigger_alert("bsc", "0xabc", "T", AlertType::Volume5m, "c".into(), t0 - 5).is_none());
    assert_eq!(e.last_fired("bsc:0xabc:volume5m"), Some(t0));
    assert!(e.try_trigger_alert("bsc", "0xabc", "T", AlertType::Volume5m, "d".into(), t0 + 60_000).is_some());
    assert_eq!(e.last_fired("bsc:0xabc:volume5m"), Some(t0 + 60_000));
    assert_eq!(e.history().len(), 2);
    assert_eq!(e.history()[0].timestamp, t0 + 60_000);
    assert!(e
        .try_trigger_alert("bsc", "0xabc", "T", AlertType::Volume5m, "e".into(), t0 + 119_999)
        .is_none());
    assert!(e
        .try_trigger_alert("bsc", "0xabc", "T", AlertType::Volume5m, "f".into(), t0 + 120_000)
        .is_some());
}

#[test]
fn cooldowns_are_per_chain_token_and_rule() {
    let mut e = AlertEngine::new();
    let t = 1_700_000_000_000i64;
    assert!(e.try_trigger_alert("bsc", "0xabc", "T", AlertType::Volume1m, "a".into(), t).is_some());
    assert!(e.try_trigger_alert("bsc", "0xabc", "T", AlertType::Volume5m, "a".into(), t).is_some());
    assert!(e.try_trigger_alert("bsc", "0xabc", "T", AlertType::PriceChange1m, "a".into(), t).is_some());
    assert!(e.try_trigger_alert("bsc", "0xabc", "T", AlertType::PriceChange5m, "a".into(), t).is_some());
    assert!(e.try_trigger_alert("base", "0xabc", "T", AlertType::Volume1m, "a".into(), t).is_some());
    assert!(e.try_trigger_alert("bsc", "0xdef", "T", AlertType::Volume1m, "a".into(), t).is_some());
    assert!(e.try_trigger_alert("bsc", "0xAbC", "T", AlertType::Volume1m, "a".into(), t).is_none());
    assert_eq!(e.history().len(), 6);
}

#[test]
fn cooldown_keys() {
    assert_eq!(cooldown_key("bsc", "0xABC", AlertType::Volume1m), "bsc:0xabc:volume1m");
    assert_eq!(cooldown_key("SOL", "AbC", AlertType::PriceChange5m), "SOL:abc:priceChange5m");
}

#[test]
fn fired_ids_differ() {
    let mut e = AlertEngine::new();
    let a = e.try_trigger_alert("bsc", "0xa", "T", AlertType::Volume1m, "a".into(), 1).unwrap();
    let b = e.try_trigger_alert("bsc", "0xb", "T", AlertType::Volume1m, "a".into(), 1).unwrap();
    assert_ne!(a.id, b.id);
    assert_eq!(a.id.len(), 36);
    let copy = copy_entry(&a);
    assert_eq!(copy.id, a.id);
    assert_eq!(copy.timestamp, a.timestamp);
}

#[test]
fn history_keeps_the_newest_fifty_newest_first() {
    let mut e = AlertEngine::new();
    for i in 0..75i64 {
        let address = format!("0x{}", i);
        let fired =
            e.try_trigger_alert("bsc", &address, "T", AlertType::Volume1m, format!("m{}", i), 1_000 + i);
        assert!(fired.is_some());
        let h = e.history();
        assert!(h.len() <= 50);
        assert_eq!(h.len(), std::cmp::min(i as usize + 1, 50));
        assert_eq!(h[0].timestamp, 1_000 + i);
        for w in h.windows(2) {
            assert!(w[0].timestamp >= w[1].timestamp);
        }
    }
    let h = e.history();
    assert_eq!(h[0].message, "m74");
    assert_eq!(h[49].message, "m25");
}

#[test]
fn a_batch_is_put_in_order() {
    let mut e = AlertEngine::new();
    let batch = vec![
        candidate("0xabc", AlertType::Volume1m),
        candidate("0xabc", AlertType::Volume5m),
        candidate("0xABC", AlertType::Volume1m),
        candidate("0xdef", AlertType::PriceChange1m),
    ];
    let out = e.check_and_trigger_alerts(&batch, 5_000);
    assert_eq!(out.len(), 4);
    assert!(out[0].is_some());
    assert!(out[1].is_some());
    assert!(out[2].is_none());
    assert!(out[3].is_some());
    assert_eq!(out[3].as_ref().unwrap().contract_address, "0xdef");
    let h = e.history();
    assert_eq!(h.len(), 3);
    assert_eq!(h[0].contract_address, "0xdef");
    assert_eq!(h[2].alert_type, AlertType::Volume1m);
    let later = e.check_and_trigger_alerts(&batch, 5_000 + 30_000);
    assert!(later.iter().all(|o| o.is_none()));
    let much_later = e.check_and_trigger_alerts(&batch, 5_000 + 60_000);
    assert_eq!(much_later.iter().filter(|o| o.is_some()).count(), 3);
}

fn hot(address: &str, symbol: &str) -> HotlistItem {
    HotlistItem {
        chain: "bsc".to_string(),
        contract_address: address.to_string(),
        symbol: symbol.to_string(),
        icon: None,
        source: None,
        narrative: None,
    }
}

fn meme(address: &str, chain: &str, symbol: &str, chain_id: Option<&str>) -> MemeScanItem {
    MemeScanItem {
        chain: chain.to_string(),
        contract_address: address.to_string(),
        symbol: symbol.to_string(),
        name: symbol.to_string(),
        icon: None,
        chain_id: chain_id.map(|c| c.to_string()),
        ca_icon: None,
        icon_status: None,
        ca_icon_status: None,
        protocol: None,
        height: None,
        first_seen: None,
        migrate_status: None,
        status: None,
        decimal: 18,
        create_time: 0,
        migrate_time: 0,
        display_time: 0,
        update_time: None,
        holders: 0,
        count: 0,
        count_buy: 0,
        count_sell: 0,
        dev_migrate_count: 0,
        sensitive_token: false,
        exclusive: false,
        paid_on_dex_screener: false,
        twitter: None,
        telegram: None,
        website: None,
        narrative: None,
        source: None,
    }
}

#[test]
fn narrative_entities() {
    let mut h = hot("0xABC", "TKN");
    assert_eq!(h.get_address(), "0xABC");
    assert_eq!(h.get_chain(), "bsc");
    assert_eq!(h.get_narrative(), None);
    assert_eq!(h.get_narrative_chain_id(), None);
    h.set_narrative("story".to_string());
    assert_eq!(h.get_narrative(), Some("story"));
    let mut m = meme("AbC", "sol", "DOG", Some("CT_501"));
    assert_eq!(m.get_address(), "AbC");
    assert_eq!(m.get_chain(), "sol");
    assert_eq!(m.get_narrative_chain_id(), Some("CT_501".to_string()));
    m.set_narrative("tale".to_string());
    assert_eq!(m.get_narrative(), Some("tale"));
}

#[test]
fn one_fetch_per_address() {
    let mut cache = NarrativeCache::new();
    assert!(cache.claim("0xABC"));
    assert!(cache.is_pending("0xabc"));
    assert!(!cache.claim("0xabc"));
    assert!(!cache.claim("0xAbC"));
    assert_eq!(cache.narrative_for("0xabc"), None);
    assert!(!cache.record("0xABC", FetchOutcome::Found("a story".to_string())));
    assert!(!cache.is_pending("0xabc"));
    assert_eq!(cache.narrative_for("0xAbc"), Some("a story".to_string()));
    assert!(!cache.claim("0xabc"));
}

#[test]
fn failed_fetches_may_be_retried_and_empty_answers_are_final() {
    let mut cache = NarrativeCache::new();
    assert!(cache.claim("0x1"));
    assert!(cache.record("0x1", FetchOutcome::Failed(FetchFailure::Transport)));
    assert!(cache.claim("0x1"));
    assert!(!cache.record("0x1", FetchOutcome::Failed(FetchFailure::Status(404))));
    assert!(cache.claim("0x1"));
    assert!(cache.record("0x1", FetchOutcome::Failed(FetchFailure::Status(502))));
    assert!(cache.claim("0x1"));
    assert!(!cache.record("0x1", FetchOutcome::Failed(FetchFailure::Malformed)));
    assert!(cache.claim("0x1"));
    assert!(cache.record("0x1", FetchOutcome::Failed(FetchFailure::BodyRead)));
    assert!(!cache.is_pending("0x1"));
    assert!(cache.claim("0x1"));
    assert!(!cache.record("0x1", FetchOutcome::Absent));
    assert_eq!(cache.narrative_for("0x1"), None);
    assert!(!cache.claim("0x1"));
}

#[test]
fn a_batch_plans_staggered_fetches_and_attaches_what_is_cached() {
    let mut cache = NarrativeCache::new();
    cache.claim("0xknown");
    cache.record("0xknown", FetchOutcome::Found("known story".to_string()));
    cache.claim("0xflying");
    let mut items = vec![
        meme("0xNEW1", "bsc", "A", None),
        meme("0xKnown", "bsc", "B", None),
        meme("0xnew1", "bsc", "C", None),
        meme("0xodd", "sol", "D", None),
        meme("0xflying", "bsc", "E", None),
        meme("SoL1", "sol", "F", Some("CT_501")),
        meme("0xnew2", "base", "G", None),
    ];
    let jobs = enrich_any_data(&mut items, &mut cache);
    let planned: Vec<(String, String, u64)> =
        jobs.iter().map(|j| (j.address.clone(), j.chain_id.clone(), j.delay_ms)).collect();
    assert_eq!(
        planned,
        vec![
            ("0xNEW1".to_string(), "56".to_string(), 0),
            ("SoL1".to_string(), "CT_501".to_string(), 500),
            ("0xnew2".to_string(), "8453".to_string(), 750),
        ]
    );
    assert!(cache.is_pending("0xnew1"));
    assert!(cache.is_pending("sol1"));
    assert!(cache.is_pending("0xnew2"));
    assert!(cache.is_pending("0xflying"));
    assert!(!cache.is_pending("0xodd"));
    assert!(!cache.claim("0xodd"));
    let narratives: Vec<Option<&str>> = items.iter().map(|i| i.get_narrative()).collect();
    assert_eq!(narratives, vec![None, Some("known story"), None, None, None, None, None]);
    let again = enrich_any_data(&mut items, &mut cache);
    assert!(again.is_empty());
}

#[test]
fn narrative_requests() {
    assert_eq!(
        narrative_url("0xabc", "56"),
        "https://web3.binance.com/bapi/defi/v1/public/wallet-direct/buw/wallet/token/ai/narrative/query?contractAddress=0xabc&chainId=56"
    );
}

fn reply(cn: Option<&str>, en: Option<&str>) -> NarrativeResponse {
    NarrativeResponse {
        code: "000000".to_string(),
        data: Some(NarrativeData {
            text: Some(NarrativeText { en: en.map(|s| s.to_string()), cn: cn.map(|s| s.to_string()) }),
        }),
        success: true,
    }
}

fn found(outcome: FetchOutcome) -> Option<String> {
    match outcome {
        FetchOutcome::Found(t) => Some(t),
        FetchOutcome::Absent => None,
        FetchOutcome::Failed(_) => panic!("a reply never fails"),
    }
}

#[test]
fn narratives_in_replies() {
    assert_eq!(found(pick_narrative(reply(Some("zh"), Some("en")))), Some("zh".to_string()));
    assert_eq!(found(pick_narrative(reply(Some(""), Some("en")))), Some("en".to_string()));
    assert_eq!(found(pick_narrative(reply(None, Some("en")))), Some("en".to_string()));
    assert_eq!(found(pick_narrative(reply(Some(""), Some("")))), None);
    assert_eq!(found(pick_narrative(reply(None, None))), None);
    let bare = NarrativeResponse { code: "1".to_string(), data: None, success: false };
    assert_eq!(found(pick_narrative(bare)), None);
    let no_text =
        NarrativeResponse { code: "1".to_string(), data: Some(NarrativeData { text: None }), success: true };
    assert_eq!(found(pick_narrative(no_text)), None);
}

#[test]
fn bodies_are_unpacked_when_gzipped() {
    let plain = "{\"success\":true}".as_bytes().to_vec();
    assert!(!is_gzip(&plain));
    assert_eq!(body_text(&plain), "{\"success\":true}");
    let mut encoder = flate2::write::GzEncoder::new(Vec::new(), flate2::Compression::default());
    encoder.write_all("{\"data\":\"\u{4e2d}\u{6587}\"}".as_bytes()).unwrap();
    let packed = encoder.finish().unwrap();
    assert!(is_gzip(&packed));
    assert_ne!(packed, "{\"data\":\"\u{4e2d}\u{6587}\"}".as_bytes().to_vec());
    assert_eq!(body_text(&packed), "{\"data\":\"\u{4e2d}\u{6587}\"}");
    let broken = vec![0x1f, 0x8b, b'x', b'y'];
    assert!(is_gzip(&broken));
    assert_eq!(body_text(&broken), String::from_utf8_lossy(&broken));
    assert!(!is_gzip(&vec![0x1f]));
    assert!(!is_gzip(&Vec::new()));
    assert_eq!(body_text(&vec![b'a', 0xff, b'b']), "a\u{fffd}b");
}

#[test]
fn categories() {
    assert_eq!(category_of("hotlist"), Category::Hotlist);
    assert_eq!(category_of("meme_new"), Category::MemeNew);
    assert_eq!(category_of("meme_migrated"), Category::MemeMigrated);
    assert_eq!(category_of("other"), Category::Unknown);
}

#[test]
fn items_without_symbol_are_dropped() {
    let mut items = vec![
        meme("0x1", "bsc", "", None),
        meme("0x2", "bsc", "B", None),
        meme("0x3", "bsc", "", None),
        meme("0x4", "bsc", "D", None),
        meme("0x5", "bsc", "", None),
    ];
    drop_unnamed(&mut items);
    let kept: Vec<&str> = items.iter().map(|i| i.contract_address.as_str()).collect();
    assert_eq!(kept, vec!["0x2", "0x4"]);
    let mut none: Vec<MemeScanItem> = vec![meme("0x1", "bsc", "", None)];
    drop_unnamed(&mut none);
    assert!(none.is_empty());
}

#[test]
fn meme_batches() {
    let mut cache = NarrativeCache::new();
    let mut symbols = SymbolTable::new();
    let mut data = vec![meme("0xAAA", "bsc", "A", None), meme("0xbbb", "bsc", "", None)];
    let p = process_memes(&mut data, &mut cache, &mut symbols);
    assert!(p.should_broadcast);
    assert_eq!(data.len(), 1);
    assert_eq!(p.jobs.len(), 1);
    assert_eq!(p.jobs[0].address, "0xAAA");
    assert_eq!(p.jobs[0].chain_id, "56");
    assert_eq!(p.jobs[0].delay_ms, 0);
    assert_eq!(symbols.label("0xaaa"), "A");
    assert_eq!(symbols.label("0xbbb"), "0xbbb...");
    assert!(!cache.claim("0xaaa"));
    assert!(cache.claim("0xbbb"));
    let mut empty = vec![meme("0xccc", "bsc", "", None)];
    let q = process_memes(&mut empty, &mut cache, &mut symbols);
    assert!(!q.should_broadcast);
    assert!(q.jobs.is_empty());
}

#[test]
fn hotlist_batches() {
    let mut symbols = SymbolTable::new();
    let data = vec![hot("0xABC", "TKN"), hot("0xabc", "TKN2"), hot("0xdefdefdef", "D")];
    let p = process_hotlist(&data, &mut symbols);
    assert!(p.should_broadcast);
    assert!(p.jobs.is_empty());
    assert_eq!(symbols.label("0xabc"), "TKN2");
    assert_eq!(symbols.label("0xdefdefdef"), "D");
    assert_eq!(symbols.label("0x1234567890"), "0x1234...");
    assert_eq!(symbols.label("0x12"), "0x12...");
    let q = process_hotlist(&Vec::new(), &mut symbols);
    assert!(!q.should_broadcast);
}

#[test]
fn batches_by_list() {
    let mut cache = NarrativeCache::new();
    let mut symbols = SymbolTable::new();
    let mut hotlist = DataPayload::Hotlist { kind: DataAction::Snapshot, data: vec![hot("0xABC", "TKN")] };
    let p = process_payload(&mut hotlist, &mut cache, &mut symbols);
    assert!(p.should_broadcast);
    assert!(p.jobs.is_empty());
    assert_eq!(symbols.label("0xabc"), "TKN");
    assert!(cache.claim("0xabc"));

    let mut fresh = DataPayload::MemeNew {
        kind: DataAction::Update,
        data: vec![meme("0x1", "bsc", "", None), meme("0x2", "base", "B", None)],
    };
    let p = process_payload(&mut fresh, &mut cache, &mut symbols);
    assert!(p.should_broadcast);
    assert_eq!(p.jobs.len(), 1);
    assert_eq!(p.jobs[0].chain_id, "8453");
    match &fresh {
        DataPayload::MemeNew { kind, data } => {
            assert_eq!(*kind, DataAction::Update);
            assert_eq!(data.len(), 1);
            assert_eq!(data[0].contract_address, "0x2");
        }
        _ => panic!("the batch has changed its list"),
    }

    let mut migrated =
        DataPayload::MemeMigrated { kind: DataAction::Full, data: vec![meme("0x3", "bsc", "", None)] };
    let p = process_payload(&mut migrated, &mut cache, &mut symbols);
    assert!(!p.should_broadcast);
    assert!(p.jobs.is_empty());

    let mut unknown = DataPayload::Unknown;
    let p = process_payload(&mut unknown, &mut cache, &mut symbols);
    assert!(!p.should_broadcast);
    assert!(matches!(unknown, DataPayload::Unknown));

    let mut empty = DataPayload::Hotlist { kind: DataAction::Snapshot, data: Vec::new() };
    assert!(!process_payload(&mut empty, &mut cache, &mut symbols).should_broadcast);
}

#[test]
fn a_full_history_takes_an_alert_whose_cooldown_has_just_ended() {
    let mut e = AlertEngine::new();
    let t0 = 1_000_000i64;
    assert!(e.try_trigger_alert("bsc", "0xABC", "T", AlertType::Volume1m, "first".into(), t0).is_some());
    for i in 0..49i64 {
        let address = format!("0x{}", i);
        assert!(e.try_trigger_alert("bsc", &address, "T", AlertType::Volume1m, format!("m{}", i), t0 + 1 + i).is_some());
    }
    let before = e.history();
    assert_eq!(before.len(), 50);
    assert_eq!(before[49].message, "first");
    let fired = e.try_trigger_alert("bsc", "0xabc", "T", AlertType::Volume1m, "again".into(), t0 + 60_000);
    assert_eq!(fired.unwrap().timestamp, t0 + 60_000);
    assert_eq!(e.last_fired("bsc:0xabc:volume1m"), Some(t0 + 60_000));
    let after = e.history();
    assert_eq!(after.len(), 50);
    assert_eq!(after[0].message, "again");
    for i in 1..50 {
        assert_eq!(after[i].id, before[i - 1].id);
    }
}
