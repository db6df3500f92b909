use backend::dispatch::{is_ack, kline_room, merge_trade, parse_kline, route_tick, side_of,
    tick_verdict, PriceChecks, Side, TickVerdict};
use backend::history::Candle;
use backend::registry::{Registry, RoomClosed};
use backend::types::{BinanceKlineDataWrapper, BinanceKlineDetail, BinanceStreamWrapper,
    SubscriptionCommand};

fn streams(commands: &[SubscriptionCommand]) -> Vec<(bool, String)> {
    commands
        .iter()
        .map(|c| match c {
            SubscriptionCommand::Subscribe(s) => (true, s.clone()),
            SubscriptionCommand::Unsubscribe(s) => (false, s.clone()),
        })
        .collect()
}

fn sorted(mut v: Vec<String>) -> Vec<String> {
    v.sort();
    v
}

fn has_live_index(r: &Registry, address: &str) -> bool {
    !r.rooms_for(address).is_empty()
}

#[test]
fn subscribe_creates_room_and_worker() {
    let mut r = Registry::new();
    let s = r.subscribe("0xabc", "bsc", "1m", "C1").unwrap();
    assert_eq!(s.room, "kl@14@0xabc@1m");
    assert_eq!(s.address, "0xabc");
    assert_eq!(s.pool_id, 14);
    assert!(s.spawn_worker);
    assert_eq!(
        streams(&s.commands),
        vec![(true, "kl@14@0xabc@1m".to_string()), (true, "tx@14_0xabc".to_string())]
    );
    assert!(r.has_room("kl@14@0xabc@1m"));
    assert_eq!(r.clients_of("kl@14@0xabc@1m"), vec!["C1"]);
    assert!(r.has_worker("0xabc"));
    assert_eq!(r.rooms_for("0xabc"), vec!["kl@14@0xabc@1m"]);
}

#[test]
fn second_room_reuses_worker_without_second_tick_subscription() {
    let mut r = Registry::new();
    r.subscribe("0xabc", "bsc", "1m", "C1").unwrap();
    let s = r.subscribe("0xabc", "bsc", "5m", "C1").unwrap();
    assert_eq!(s.room, "kl@14@0xabc@5m");
    assert!(!s.spawn_worker);
    assert_eq!(streams(&s.commands), vec![(true, "kl@14@0xabc@5m".to_string())]);
    assert_eq!(
        sorted(r.rooms_for("0xabc")),
        vec!["kl@14@0xabc@1m".to_string(), "kl@14@0xabc@5m".to_string()]
    );
}

#[test]
fn joining_an_existing_room_sends_nothing() {
    let mut r = Registry::new();
    r.subscribe("0xabc", "bsc", "1m", "C1").unwrap();
    let s = r.subscribe("0xABC", "BSC", "1m", "C2").unwrap();
    assert_eq!(s.room, "kl@14@0xabc@1m");
    assert!(!s.spawn_worker);
    assert!(s.commands.is_empty());
    assert_eq!(sorted(r.clients_of("kl@14@0xabc@1m")), vec!["C1".to_string(), "C2".to_string()]);
    let again = r.subscribe("0xabc", "bsc", "1m", "C2").unwrap();
    assert!(again.commands.is_empty());
    assert_eq!(r.clients_of("kl@14@0xabc@1m").len(), 2);
}

#[test]
fn unknown_chain_is_refused() {
    let mut r = Registry::new();
    assert!(r.subscribe("0xabc", "eth", "1m", "C1").is_none());
    assert!(r.unsubscribe("0xabc", "eth", "1m", "C1").is_none());
    assert!(!r.has_room("kl@14@0xabc@1m"));
    assert!(!r.has_worker("0xabc"));
}

#[test]
fn solana_addresses_keep_their_case() {
    let mut r = Registry::new();
    let s = r.subscribe("AbCd", "sol", "1m", "C1").unwrap();
    assert_eq!(s.room, "kl@16@AbCd@1m");
    assert_eq!(s.address, "AbCd");
    assert!(r.has_worker("AbCd"));
    assert!(!r.has_worker("abcd"));
}

#[test]
fn last_client_leaving_closes_the_room_and_starts_the_timer() {
    let mut r = Registry::new();
    r.subscribe("0xabc", "bsc", "1m", "C1").unwrap();
    r.subscribe("0xabc", "bsc", "1m", "C2").unwrap();
    let first = r.unsubscribe("0xabc", "bsc", "1m", "C1").unwrap();
    assert!(!first.room_closed);
    assert!(first.commands.is_empty());
    assert!(!first.start_timer);
    assert_eq!(r.clients_of("kl@14@0xabc@1m"), vec!["C2"]);
    let last = r.unsubscribe("0xabc", "bsc", "1m", "C2").unwrap();
    assert_eq!(last.room, "kl@14@0xabc@1m");
    assert!(last.room_closed);
    assert_eq!(streams(&last.commands), vec![(false, "kl@14@0xabc@1m".to_string())]);
    assert!(last.start_timer);
    assert!(!r.has_room("kl@14@0xabc@1m"));
    assert!(r.has_worker("0xabc"));
}

#[test]
fn closing_one_of_two_rooms_starts_no_timer() {
    let mut r = Registry::new();
    r.subscribe("0xabc", "bsc", "1m", "C1").unwrap();
    r.subscribe("0xabc", "bsc", "5m", "C1").unwrap();
    let u = r.unsubscribe("0xabc", "bsc", "1m", "C1").unwrap();
    assert!(u.room_closed);
    assert!(!u.start_timer);
    assert_eq!(r.rooms_for("0xabc"), vec!["kl@14@0xabc@5m"]);
}

#[test]
fn leaving_a_room_one_is_not_in_changes_nothing() {
    let mut r = Registry::new();
    r.subscribe("0xabc", "bsc", "1m", "C1").unwrap();
    let u = r.unsubscribe("0xabc", "bsc", "1m", "C9").unwrap();
    assert!(!u.room_closed);
    assert!(u.commands.is_empty());
    assert!(!u.start_timer);
    assert_eq!(r.clients_of("kl@14@0xabc@1m"), vec!["C1"]);
    let none = r.unsubscribe("0xabc", "bsc", "1h", "C1").unwrap();
    assert!(!none.room_closed);
    assert!(!none.start_timer);
}

#[test]
fn resubscribe_within_window_causes_no_tick_churn() {
    let mut r = Registry::new();
    r.subscribe("0xabc", "bsc", "1m", "C1").unwrap();
    let u = r.unsubscribe("0xabc", "bsc", "1m", "C1").unwrap();
    assert!(u.start_timer);
    assert_eq!(streams(&u.commands), vec![(false, "kl@14@0xabc@1m".to_string())]);
    let s = r.subscribe("0xabc", "bsc", "1m", "C1").unwrap();
    assert!(!s.spawn_worker);
    assert_eq!(
        streams(&s.commands),
        vec![(true, "kl@14@0xabc@1m".to_string()), (true, "tx@14_0xabc".to_string())]
    );
    let t = r.timer_fired("0xabc", 14);
    assert!(!t.unsubscribed);
    assert!(t.command.is_none());
    assert!(has_live_index(&r, "0xabc"));
}

#[test]
fn timer_ends_the_trade_stream_when_nobody_came_back() {
    let mut r = Registry::new();
    r.subscribe("0xabc", "bsc", "1m", "C1").unwrap();
    r.unsubscribe("0xabc", "bsc", "1m", "C1").unwrap();
    let t = r.timer_fired("0xabc", 14);
    assert!(t.unsubscribed);
    assert_eq!(streams(&[t.command.unwrap()]), vec![(false, "tx@14_0xabc".to_string())]);
    let again = r.timer_fired("0xabc", 14);
    assert!(again.unsubscribed);
    r.worker_exited("0xabc");
    assert!(!r.has_worker("0xabc"));
    let silent = r.timer_fired("0xabc", 14);
    assert!(silent.unsubscribed);
    assert!(silent.command.is_none());
}

#[test]
fn a_new_worker_is_started_after_the_old_one_ended() {
    let mut r = Registry::new();
    assert!(r.subscribe("0xabc", "bsc", "1m", "C1").unwrap().spawn_worker);
    r.unsubscribe("0xabc", "bsc", "1m", "C1").unwrap();
    r.timer_fired("0xabc", 14);
    r.worker_exited("0xabc");
    let s = r.subscribe("0xabc", "bsc", "1m", "C1").unwrap();
    assert!(s.spawn_worker);
    assert_eq!(s.commands.len(), 2);
}

#[test]
fn subscribe_then_unsubscribe_restores_rooms_and_index() {
    let mut r = Registry::new();
    r.subscribe("0xabc", "bsc", "1m", "C1").unwrap();
    r.subscribe("0xdef", "base", "1h", "C2").unwrap();
    r.subscribe("0xabc", "bsc", "5m", "C3").unwrap();
    r.unsubscribe("0xabc", "bsc", "5m", "C3").unwrap();
    assert!(r.has_room("kl@14@0xabc@1m"));
    assert!(r.has_room("kl@199@0xdef@1h"));
    assert!(!r.has_room("kl@14@0xabc@5m"));
    assert_eq!(r.rooms_for("0xabc"), vec!["kl@14@0xabc@1m"]);
    assert_eq!(r.rooms_for("0xdef"), vec!["kl@199@0xdef@1h"]);
    assert_eq!(r.clients_of("kl@14@0xabc@1m"), vec!["C1"]);
    assert!(r.has_worker("0xabc"));
    assert!(r.has_worker("0xdef"));
}

fn closed_by_room(records: Vec<RoomClosed>) -> Vec<(String, bool, Vec<(bool, String)>)> {
    let mut v: Vec<(String, bool, Vec<(bool, String)>)> =
        records.iter().map(|c| (c.room.clone(), c.start_timer, streams(&c.commands))).collect();
    v.sort();
    v
}

#[test]
fn disconnect_tears_down_every_room_the_client_was_alone_in() {
    let mut r = Registry::new();
    r.subscribe("0xabc", "bsc", "1m", "C1").unwrap();
    r.subscribe("0xabc", "bsc", "5m", "C1").unwrap();
    r.subscribe("0xdef", "base", "1h", "C1").unwrap();
    r.subscribe("0xdef", "base", "1h", "C2").unwrap();
    r.subscribe("0x123", "bsc", "1m", "C2").unwrap();
    let records = r.disconnect("C1");
    assert_eq!(records.len(), 2);
    for rec in &records {
        assert_eq!(rec.pool_id, 14);
        assert_eq!(rec.address, "0xabc");
    }
    let timers = records.iter().filter(|c| c.start_timer).count();
    assert_eq!(timers, 1);
    assert!(records.last().unwrap().start_timer);
    let by_room = closed_by_room(records);
    assert_eq!(by_room[0].0, "kl@14@0xabc@1m");
    assert_eq!(by_room[0].2, vec![(false, "kl@14@0xabc@1m".to_string())]);
    assert_eq!(by_room[1].0, "kl@14@0xabc@5m");
    assert_eq!(by_room[1].2, vec![(false, "kl@14@0xabc@5m".to_string())]);
    assert!(!r.has_room("kl@14@0xabc@1m"));
    assert!(!r.has_room("kl@14@0xabc@5m"));
    assert_eq!(r.clients_of("kl@199@0xdef@1h"), vec!["C2"]);
    assert_eq!(r.clients_of("kl@14@0x123@1m"), vec!["C2"]);
    assert!(r.rooms_for("0xabc").is_empty());
    assert_eq!(r.rooms_for("0xdef"), vec!["kl@199@0xdef@1h"]);
}

#[test]
fn disconnect_of_a_stranger_changes_nothing() {
    let mut r = Registry::new();
    r.subscribe("0xabc", "bsc", "1m", "C1").unwrap();
    assert!(r.disconnect("C7").is_empty());
    assert_eq!(r.clients_of("kl@14@0xabc@1m"), vec!["C1"]);
    assert_eq!(r.rooms_for("0xabc"), vec!["kl@14@0xabc@1m"]);
}

#[test]
fn every_room_has_a_client_and_the_index_is_exact() {
    let mut r = Registry::new();
    let addresses = ["0xa", "0xb", "0xc"];
    let intervals = ["1m", "5m", "1h"];
    let clients = ["C1", "C2", "C3", "C4"];
    let mut step = 0usize;
    for round in 0..40usize {
        let a = addresses[(round * 7 + 1) % 3];
        let i = intervals[(round * 5 + 2) % 3];
        let c = clients[(round * 3 + step) % 4];
        step += round % 3;
        match round % 5 {
            0 | 1 | 2 => {
                r.subscribe(a, "bsc", i, c).unwrap();
            }
            3 => {
                r.unsubscribe(a, "bsc", i, c).unwrap();
            }
            _ => {
                r.disconnect(c);
            }
        }
        for a in addresses {
            let mut expected = Vec::new();
            for i in intervals {
                let key = format!("kl@14@{}@{}", a, i);
                if r.has_room(&key) {
                    assert!(!r.clients_of(&key).is_empty());
                    expected.push(key);
                } else {
                    assert!(r.clients_of(&key).is_empty());
                }
            }
            assert_eq!(sorted(r.rooms_for(a)), sorted(expected));
        }
    }
}

#[test]
fn acknowledgements_are_recognised() {
    assert!(is_ack("{\"result\":null,\"id\":1700000000000}"));
    assert!(!is_ack("{\"stream\":\"kl@14@0xabc@1m\",\"data\":{}}"));
}

#[test]
fn candle_frames_find_their_room() {
    assert_eq!(kline_room("kl@14@0xABC@1m"), Some("kl@14@0xabc@1m".to_string()));
    assert_eq!(kline_room("kl@16@AbC@5m"), Some("kl@16@AbC@5m".to_string()));
    assert_eq!(kline_room("kl@14_0xabc_1m"), None);
    assert_eq!(kline_room("tx@14_0xabc"), None);
}

#[test]
fn sides_of_a_trade() {
    assert_eq!(side_of("0xabc", "0xABC", "0xWbnb"), Some(Side::Token0));
    assert_eq!(side_of("0xabc", "0xWbnb", "0xAbC"), Some(Side::Token1));
    assert_eq!(side_of("0xabc", "0xabc", "0xabc"), Some(Side::Token0));
    assert_eq!(side_of("0xabc", "0x1", "0x2"), None);
}

#[test]
fn tick_is_routed_to_both_rooms() {
    let mut r = Registry::new();
    r.subscribe("0xabc", "bsc", "1m", "C1").unwrap();
    r.subscribe("0xabc", "bsc", "5m", "C1").unwrap();
    let route = route_tick(&r, "tx@14_0xabc", "0xABC", "0xWbnb").unwrap();
    assert_eq!(route.side, Side::Token0);
    assert_eq!(route.address, "0xabc");
    assert_eq!(
        sorted(route.rooms),
        vec!["kl@14@0xabc@1m".to_string(), "kl@14@0xabc@5m".to_string()]
    );
    assert!(route_tick(&r, "tx@14_0xabc", "0x1", "0x2").is_none());
    assert!(route_tick(&r, "kl@14@0xabc@1m", "0xabc", "0x2").is_none());
    let elsewhere = route_tick(&r, "tx@14_0xdef", "0xdef", "0x2").unwrap();
    assert!(elsewhere.rooms.is_empty());
}

#[test]
fn spike_filter_truth_table() {
    for has_candle in [false, true] {
        for positive in [false, true] {
            for over in [false, true] {
                for thin in [false, true] {
                    let v = tick_verdict(has_candle, positive, over, thin);
                    let expected = if !has_candle {
                        TickVerdict::NoCandle
                    } else if positive && over && thin {
                        TickVerdict::Drop
                    } else {
                        TickVerdict::Merge
                    };
                    assert_eq!(v, expected);
                }
            }
        }
    }
}

#[test]
fn spike_filter_on_prices() {
    fn judge(close: f64, price: f64, volume: f64) -> TickVerdict {
        let ratio = if price > close { price / close } else { close / price };
        tick_verdict(true, close > 0.0, ratio > 2.0, volume < 10.0)
    }
    assert_eq!(judge(1.00, 5.00, 1.0), TickVerdict::Drop);
    assert_eq!(judge(1.00, 1.25, 500.0), TickVerdict::Merge);
    assert_eq!(judge(1.00, 5.00, 10.0), TickVerdict::Merge);
    assert_eq!(judge(1.00, 2.00, 1.0), TickVerdict::Merge);
    assert_eq!(judge(1.00, 0.40, 1.0), TickVerdict::Drop);
    assert_eq!(judge(0.0, 5.00, 1.0), TickVerdict::Merge);
}

fn candle_frame(stream: &str, millis: &str) -> BinanceStreamWrapper<BinanceKlineDataWrapper> {
    BinanceStreamWrapper {
        stream: stream.to_string(),
        data: BinanceKlineDataWrapper {
            kline_data: BinanceKlineDetail {
                values: (
                    "1.0".to_string(),
                    "1.5".to_string(),
                    "0.9".to_string(),
                    "1.2".to_string(),
                    "1000".to_string(),
                    millis.to_string(),
                ),
            },
        },
    }
}

#[test]
fn candle_frames_are_read() {
    let update = parse_kline(&candle_frame("kl@14@0xABC@1m", "1700000040000")).unwrap();
    assert_eq!(update.room, "kl@14@0xabc@1m");
    assert_eq!(update.time, 1_700_000_040);
    let odd = parse_kline(&candle_frame("kl@16@AbC@1h", "later")).unwrap();
    assert_eq!(odd.room, "kl@16@AbC@1h");
    assert_eq!(odd.time, 0);
    assert!(parse_kline(&candle_frame("tx@14_0xabc", "1700000040000")).is_none());
}

fn compare(candle: &Candle<f64>, price: f64, usd_volume: f64) -> PriceChecks {
    let ratio = if price > candle.close { price / candle.close } else { candle.close / price };
    PriceChecks {
        close_positive: candle.close > 0.0,
        ratio_over_limit: candle.close > 0.0 && ratio > 2.0,
        volume_under_floor: usd_volume < 10.0,
        above_high: price > candle.high,
        below_low: price < candle.low,
    }
}

#[test]
fn tick_merges_into_both_rooms() {
    let mut r = Registry::new();
    r.subscribe("0xabc", "bsc", "1m", "C1").unwrap();
    r.subscribe("0xabc", "bsc", "5m", "C1").unwrap();
    let one = Candle { time: 60_000, open: 0.9, high: 1.1, low: 0.8, close: 1.00, volume: 77.0 };
    let five = Candle { time: 0, open: 0.5, high: 1.4, low: 0.4, close: 1.00, volume: 99.0 };
    let mut candles =
        vec![("kl@14@0xabc@1m".to_string(), Some(one)), ("kl@14@0xabc@5m".to_string(), Some(five))];

    let route = route_tick(&r, "tx@14_0xabc", "0xABC", "0xWbnb").unwrap();
    assert_eq!(route.side, Side::Token0);
    let price = 1.25;
    let mut updated = Vec::new();
    for room in route.rooms {
        let (_, current) = candles.iter_mut().find(|(key, _)| *key == room).unwrap();
        let checks = compare(current.as_ref().unwrap(), price, 500.0);
        if merge_trade(current, price, checks) == TickVerdict::Merge {
            updated.push(room);
        }
    }
    assert_eq!(sorted(updated), vec!["kl@14@0xabc@1m".to_string(), "kl@14@0xabc@5m".to_string()]);
    let one = candles[0].1.unwrap();
    assert_eq!((one.close, one.high, one.low, one.open, one.volume, one.time), (1.25, 1.25, 0.8, 0.9, 77.0, 60_000));
    let five = candles[1].1.unwrap();
    assert_eq!((five.close, five.high, five.low, five.open, five.volume, five.time), (1.25, 1.4, 0.4, 0.5, 99.0, 0));
}

#[test]
fn spike_filter_rejects_low_volume_outlier() {
    let candle = Candle { time: 60_000, open: 0.9, high: 1.1, low: 0.8, close: 1.00, volume: 77.0 };
    let mut current = Some(candle);
    let checks = compare(&candle, 5.00, 1.0);
    assert_eq!(merge_trade(&mut current, 5.00, checks), TickVerdict::Drop);
    let after = current.unwrap();
    assert_eq!(
        (after.close, after.high, after.low, after.open, after.volume, after.time),
        (1.00, 1.1, 0.8, 0.9, 77.0, 60_000)
    );
    let mut none: Option<Candle<f64>> = None;
    assert_eq!(merge_trade(&mut none, 5.00, checks), TickVerdict::NoCandle);
    assert!(none.is_none());
    let mut low = Some(candle);
    let checks = compare(&candle, 0.7, 500.0);
    assert_eq!(merge_trade(&mut low, 0.7, checks), TickVerdict::Merge);
    assert_eq!((low.unwrap().low, low.unwrap().high, low.unwrap().close), (0.7, 1.1, 0.7));
}

#[test]
fn disconnect_tears_down_a_room_whose_interval_holds_a_separator() {
    let mut r = Registry::new();
    let s = r.subscribe("0xABC", "bsc", "1@m", "C1").unwrap();
    assert_eq!(s.room, "kl@14@0xabc@1@m");
    assert!(s.spawn_worker);
    assert_eq!(r.rooms_for("0xabc"), vec!["kl@14@0xabc@1@m"]);
    let records = r.disconnect("C1");
    assert_eq!(records.len(), 1);
    assert_eq!(records[0].room, "kl@14@0xabc@1@m");
    assert_eq!(records[0].address, "0xabc");
    assert_eq!(records[0].pool_id, 14);
    assert_eq!(streams(&records[0].commands), vec![(false, "kl@14@0xabc@1@m".to_string())]);
    assert!(records[0].start_timer);
    assert!(!r.has_room("kl@14@0xabc@1@m"));
    assert!(r.rooms_for("0xabc").is_empty());
    let t = r.timer_fired("0xabc", records[0].pool_id);
    assert!(t.unsubscribed);
    assert_eq!(streams(&[t.command.unwrap()]), vec![(false, "tx@14_0xabc".to_string())]);
}

#[test]
fn disconnect_does_what_the_last_unsubscribe_does() {
    let mut by_disconnect = Registry::new();
    let mut by_unsubscribe = Registry::new();
    for r in [&mut by_disconnect, &mut by_unsubscribe] {
        r.subscribe("SoLaNa", "sol", "5m", "C1").unwrap();
        r.subscribe("SoLaNa", "sol", "1h", "C2").unwrap();
    }
    let records = by_disconnect.disconnect("C1");
    let left = by_unsubscribe.unsubscribe("SoLaNa", "sol", "5m", "C1").unwrap();
    assert_eq!(records.len(), 1);
    assert_eq!(records[0].room, left.room);
    assert_eq!(records[0].address, left.address);
    assert_eq!(records[0].pool_id, left.pool_id);
    assert_eq!(streams(&records[0].commands), streams(&left.commands));
    assert_eq!(records[0].start_timer, left.start_timer);
    assert!(left.room_closed);
    for r in [&by_disconnect, &by_unsubscribe] {
        assert!(!r.has_room("kl@16@SoLaNa@5m"));
        assert_eq!(r.rooms_for("SoLaNa"), vec!["kl@16@SoLaNa@1h"]);
    }
}
