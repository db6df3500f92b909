use backend::config::Config;
use backend::pool::{after_build_failure, fallback_kind, should_recycle, slot_of, BuildStep,
    FallbackKind, FetchFailure, Pool, BUILD_ATTEMPTS, HISTORY_ATTEMPTS};
use backend::tunnel::{connect_request, route_to_upstream, target_addr, tls_host, tunnel_granted};

#[test]
fn pool_goes_round_robin() {
    let mut pool = Pool::new(vec!["a", "b", "c"]).unwrap();
    assert_eq!(pool.size(), 3);
    let mut served = Vec::new();
    for _ in 0..7 {
        let i = pool.next_index();
        served.push((i, *pool.client(i)));
    }
    assert_eq!(
        served,
        vec![(0, "a"), (1, "b"), (2, "c"), (0, "a"), (1, "b"), (2, "c"), (0, "a")]
    );
}

#[test]
fn pool_needs_a_slot() {
    assert!(Pool::<u8>::new(Vec::new()).is_none());
    assert!(Pool::new(vec![1u8]).is_some());
}

#[test]
fn recycling_replaces_one_client_and_keeps_the_size() {
    let mut pool = Pool::new(vec![10, 20, 30, 40]).unwrap();
    assert_eq!(pool.recycle(1, 21), 20);
    assert_eq!(pool.size(), 4);
    assert_eq!(
        (0..4).map(|i| *pool.client(i)).collect::<Vec<i32>>(),
        vec![10, 21, 30, 40]
    );
    assert_eq!(pool.recycle(3, 41), 40);
    assert_eq!(pool.recycle(0, 11), 10);
    assert_eq!(
        (0..4).map(|i| *pool.client(i)).collect::<Vec<i32>>(),
        vec![11, 21, 30, 41]
    );
    assert_eq!(pool.next_index(), 0);
    assert_eq!(pool.recycle(0, 12), 11);
    assert_eq!(pool.next_index(), 1);
}

#[test]
fn what_is_recycled() {
    assert!(should_recycle(FetchFailure::Transport));
    assert!(should_recycle(FetchFailure::BodyRead));
    assert!(should_recycle(FetchFailure::Status(500)));
    assert!(should_recycle(FetchFailure::Status(503)));
    assert!(!should_recycle(FetchFailure::Status(499)));
    assert!(!should_recycle(FetchFailure::Status(404)));
    assert!(!should_recycle(FetchFailure::Status(400)));
    assert!(!should_recycle(FetchFailure::Malformed));
}

#[test]
fn building_a_client_falls_back_safely() {
    assert_eq!(after_build_failure(1), BuildStep::Retry { delay_ms: 500 });
    assert_eq!(after_build_failure(2), BuildStep::Retry { delay_ms: 500 });
    assert_eq!(after_build_failure(3), BuildStep::Fallback);
    assert_eq!(after_build_failure(4), BuildStep::Fallback);
    assert_eq!(BUILD_ATTEMPTS, 3);
    assert_eq!(HISTORY_ATTEMPTS, 2);
    assert_eq!(fallback_kind(true), FallbackKind::DeadEnd);
    assert_eq!(fallback_kind(false), FallbackKind::Direct);
}

#[test]
fn upstream_addresses() {
    assert_eq!(
        target_addr("wss://nbstream.binance.com/w3w/stream"),
        Some("nbstream.binance.com:443".to_string())
    );
    assert_eq!(target_addr("ws://example.org/x"), Some("example.org:80".to_string()));
    assert_eq!(target_addr("wss://example.org:9443/x"), Some("example.org:9443".to_string()));
    assert_eq!(target_addr("foo://example.org/x"), Some("example.org:443".to_string()));
    assert_eq!(target_addr("not a url"), None);
    assert_eq!(tls_host("wss://nbstream.binance.com/w3w/stream"), Some("nbstream.binance.com".to_string()));
    assert_eq!(tls_host("mailto:someone@example.org"), Some(String::new()));
    assert_eq!(tls_host("://"), None);
}

#[test]
fn tunnel_requests_and_replies() {
    assert_eq!(
        connect_request("nbstream.binance.com:443"),
        "CONNECT nbstream.binance.com:443 HTTP/1.1\r\nHost: nbstream.binance.com:443\r\nConnection: close\r\n\r\n"
    );
    assert!(tunnel_granted(&"HTTP/1.1 200 Connection established\r\n\r\n".as_bytes().to_vec()));
    assert!(tunnel_granted(&"HTTP/1.1 200".as_bytes().to_vec()));
    assert!(!tunnel_granted(&"HTTP/1.1 407 Proxy Authentication Required".as_bytes().to_vec()));
    assert!(!tunnel_granted(&"HTTP/1.0 200 OK".as_bytes().to_vec()));
    assert!(!tunnel_granted(&Vec::new()));
}

#[test]
fn routes_to_upstream() {
    let config = Config::new();
    let route = route_to_upstream(&config).unwrap();
    assert_eq!(route.target, "nbstream.binance.com:443");
    assert_eq!(route.host, "nbstream.binance.com");
    assert_eq!(route.tunnel, Some("127.0.0.1:1080".to_string()));
    assert_eq!(route.request, Some(connect_request("nbstream.binance.com:443")));
    let mut direct = Config::new();
    direct.proxy_addr = "none".to_string();
    let route = route_to_upstream(&direct).unwrap();
    assert_eq!(route.tunnel, None);
    assert_eq!(route.request, None);
    let mut bad = Config::new();
    bad.binance_wss_url = "nowhere".to_string();
    assert!(route_to_upstream(&bad).is_none());
}

#[test]
fn slots_by_ticket() {
    assert_eq!(slot_of(0, 3), 0);
    assert_eq!(slot_of(4, 3), 1);
    assert_eq!(slot_of(usize::MAX, 1), 0);
    assert_eq!(slot_of(usize::MAX, usize::MAX), 0);
    assert_eq!(slot_of(7, 10), 7);
}
