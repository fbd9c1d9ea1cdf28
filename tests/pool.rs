use lokipool::{
    Config, Error, HealthProbe, HealthVerdict, Pool, PoolManager, PoolOptions, Proxy,
    ProxyConfig, ProxyStatus, TestResult,
};

fn opts(max_size: usize, max_failures: u32) -> PoolOptions {
    PoolOptions { max_size, auto_test: true, test_interval: 300, max_failures, probe_timeout: 10 }
}

fn entry(id: &str, port: u16) -> Proxy {
    Proxy::with_id(id.to_string(), "10.0.0.1".to_string(), port, None, None)
}

fn ok(id: &str, latency: u64) -> TestResult {
    TestResult::from_probe(id.to_string(), Ok(latency), 1_700_000_000_000)
}

fn failed(id: &str) -> TestResult {
    TestResult::from_probe(id.to_string(), Err("refused".to_string()), 1_700_000_000_000)
}

/// A pool with entries `a`, `b`, `c` measured at the given latencies.
fn measured(latencies: &[(&str, u64)]) -> Pool {
    let mut pool = Pool::new(opts(10, 3));
    for (i, (id, _)) in latencies.iter().enumerate() {
        pool.add(entry(id, 1000 + i as u16)).unwrap();
    }
    let results: Vec<TestResult> = latencies.iter().map(|(id, l)| ok(id, *l)).collect();
    pool.apply_test_results(&results);
    pool
}

#[test]
fn get_available_picks_least_latency() {
    let pool = measured(&[("a", 70), ("b", 30), ("c", 50)]);
    let best = pool.get_available().unwrap();
    assert_eq!(best.id, "b");
    assert_eq!(best.latency, 30);
    assert_eq!(best.status, ProxyStatus::Available);
}

#[test]
fn get_available_tie_goes_to_smaller_id() {
    let pool = measured(&[("z", 40), ("m", 40), ("q", 90)]);
    assert_eq!(pool.get_available().unwrap().id, "m");
}

#[test]
fn get_available_skips_failed() {
    let mut pool = measured(&[("a", 10), ("b", 20)]);
    pool.apply_test_results(&vec![failed("a")]);
    assert_eq!(pool.get_available().unwrap().id, "b");
}

#[test]
fn empty_pool_has_nothing() {
    let mut pool = Pool::new(opts(10, 3));
    assert!(pool.get_available().is_none());
    assert!(pool.next().is_none());
    assert!(pool.current().is_none());
    assert!(pool.shown(false).is_none());
    assert!(pool.shown(true).is_none());
}

#[test]
fn untested_entries_are_not_available() {
    let mut pool = Pool::new(opts(10, 3));
    pool.add(entry("a", 1)).unwrap();
    assert!(pool.get_available().is_none());
    assert!(pool.next().is_none());
}

#[test]
fn next_rotates_round_robin() {
    let mut pool = measured(&[("a", 30), ("b", 70), ("c", 50)]);
    let seen: Vec<String> = (0..7).map(|_| pool.next().unwrap().id).collect();
    assert_eq!(seen, vec!["c", "b", "a", "c", "b", "a", "c"]);
}

#[test]
fn single_entry_rotation_period_one() {
    let mut pool = measured(&[("only", 12)]);
    for _ in 0..5 {
        assert_eq!(pool.next().unwrap().id, "only");
    }
}

#[test]
fn auto_switch_show_alternates() {
    let mut pool = measured(&[("A", 30), ("B", 70)]);
    let mut shown = Vec::new();
    shown.push(pool.shown(true).unwrap().id);
    pool.next();
    shown.push(pool.shown(true).unwrap().id);
    pool.next();
    shown.push(pool.shown(true).unwrap().id);
    pool.next();
    shown.push(pool.shown(true).unwrap().id);
    assert_eq!(shown, vec!["A", "B", "A", "B"]);
}

#[test]
fn show_without_auto_switch_is_fastest() {
    let mut pool = measured(&[("A", 30), ("B", 70)]);
    pool.next();
    assert_eq!(pool.shown(false).unwrap().id, "A");
}

#[test]
fn add_beyond_capacity_is_rejected() {
    let mut pool = Pool::new(opts(2, 3));
    pool.add(entry("a", 1)).unwrap();
    pool.add(entry("b", 2)).unwrap();
    assert_eq!(pool.add(entry("c", 3)), Err(Error::Capacity(2)));
    assert_eq!(pool.len(), 2);
    // the same id replaces and does not grow the pool
    assert_eq!(pool.add(entry("a", 9)), Ok(()));
    assert_eq!(pool.len(), 2);
    let all = pool.get_all_proxies();
    assert!(all.iter().any(|p| p.id == "a" && p.info.port == 9));
}

#[test]
fn zero_capacity_rejects_everything() {
    let mut pool = Pool::new(opts(0, 3));
    assert_eq!(pool.add(entry("a", 1)), Err(Error::Capacity(0)));
}

#[test]
fn test_results_keep_size_and_ids() {
    let mut pool = Pool::new(opts(10, 3));
    for (i, id) in ["a", "b", "c", "d"].iter().enumerate() {
        pool.add(entry(id, i as u16 + 1)).unwrap();
    }
    pool.apply_test_results(&vec![ok("a", 40), failed("b"), ok("c", 20)]);
    let all = pool.get_all_proxies();
    assert_eq!(all.len(), 4);
    let mut ids: Vec<&str> = all.iter().map(|p| p.id.as_str()).collect();
    ids.sort();
    assert_eq!(ids, vec!["a", "b", "c", "d"]);
    let status = |id: &str| all.iter().find(|p| p.id == id).unwrap().status;
    assert_eq!(status("a"), ProxyStatus::Available);
    assert_eq!(status("b"), ProxyStatus::Failed);
    assert_eq!(status("c"), ProxyStatus::Available);
    assert_eq!(status("d"), ProxyStatus::Untested);
    // latency order: c (20) then a (40)
    let avail = pool.available_entries();
    assert_eq!(avail.iter().map(|p| p.id.as_str()).collect::<Vec<_>>(), vec!["c", "a"]);
}

#[test]
fn successful_probe_resets_failures() {
    let mut pool = measured(&[("x", 10)]);
    let id = "x".to_string();
    assert_eq!(pool.record_health(&id, None, 5), HealthVerdict::Kept);
    assert_eq!(pool.get_all_proxies()[0].fail_count, 1);
    pool.apply_test_result(&ok("x", 15));
    let p = &pool.get_all_proxies()[0];
    assert_eq!(p.fail_count, 0);
    assert_eq!(p.latency, 15);
    assert_eq!(p.info.last_latency, Some(15));
}

#[test]
fn result_for_unknown_id_changes_nothing() {
    let mut pool = measured(&[("x", 10)]);
    assert!(!pool.apply_test_result(&ok("nope", 1)));
    assert_eq!(pool.len(), 1);
}

#[test]
fn health_check_evicts_after_three_failures() {
    let mut pool = measured(&[("X", 10), ("Y", 20)]);
    let cycle = vec![
        HealthProbe { id: "X".to_string(), latency: None },
        HealthProbe { id: "Y".to_string(), latency: Some(25) },
    ];
    assert!(pool.health_cycle(&cycle, 1).is_empty());
    assert!(pool.health_cycle(&cycle, 2).is_empty());
    let evicted = pool.health_cycle(&cycle, 3);
    assert_eq!(evicted, vec!["X".to_string()]);
    let all = pool.get_all_proxies();
    assert_eq!(all.len(), 1);
    assert_eq!(all[0].id, "Y");
    assert!(all.iter().all(|p| p.fail_count < 3));
    assert_eq!(pool.addresses(), vec!["10.0.0.1:1001".to_string()]);
}

#[test]
fn health_failure_keeps_status() {
    let mut pool = measured(&[("X", 10)]);
    pool.apply_test_results(&vec![failed("X")]);
    assert_eq!(pool.record_health(&"X".to_string(), None, 1), HealthVerdict::Kept);
    let p = &pool.get_all_proxies()[0];
    assert_eq!(p.status, ProxyStatus::Failed);
    assert_eq!(p.fail_count, 1);
    assert_eq!(pool.record_health(&"X".to_string(), Some(44), 2), HealthVerdict::Kept);
    let p = &pool.get_all_proxies()[0];
    assert_eq!(p.status, ProxyStatus::Available);
    assert_eq!(p.latency, 44);
    assert_eq!(p.fail_count, 0);
}

#[test]
fn health_check_of_missing_entry() {
    let mut pool = Pool::new(opts(10, 3));
    assert_eq!(pool.record_health(&"gone".to_string(), None, 1), HealthVerdict::Missing);
}

#[test]
fn failure_limit_one_evicts_at_first_failure() {
    let mut pool = Pool::new(opts(10, 1));
    pool.add(entry("a", 1)).unwrap();
    assert_eq!(pool.record_health(&"a".to_string(), None, 1), HealthVerdict::Evicted);
    assert_eq!(pool.len(), 0);
}

#[test]
fn retry_only_applies_successes() {
    let mut pool = measured(&[("a", 10), ("b", 20)]);
    pool.apply_test_results(&vec![failed("a"), failed("b")]);
    let failed_now = pool.failed_entries();
    assert_eq!(failed_now.len(), 2);
    assert!(!pool.apply_retry_results(&vec![failed("a")]));
    assert!(pool.apply_retry_results(&vec![ok("b", 33), failed("a")]));
    assert_eq!(pool.get_available().unwrap().id, "b");
    assert_eq!(pool.failed_entries().len(), 1);
}

#[test]
fn addresses_are_in_latency_order() {
    let pool = measured(&[("a", 90), ("b", 10)]);
    assert_eq!(pool.addresses(), vec!["10.0.0.1:1001".to_string(), "10.0.0.1:1000".to_string()]);
}

#[test]
fn new_with_proxies_makes_untested_entries() {
    let configs = vec![
        ProxyConfig::plain("127.0.0.1", 1080, None),
        ProxyConfig::plain("10.1.1.1", 9050, Some("Lab".to_string())),
    ];
    let pool = Pool::new_with_proxies(configs, opts(10, 3));
    let all = pool.get_all_proxies();
    assert_eq!(all.len(), 2);
    assert!(all.iter().all(|p| p.status == ProxyStatus::Untested && p.id.len() == 36));
    assert!(all.iter().any(|p| p.info.host == "10.1.1.1" && p.info.port == 9050));
    assert!(pool.get_available().is_none());
}

#[test]
fn new_with_proxies_respects_capacity() {
    let configs = vec![
        ProxyConfig::plain("h1", 1, None),
        ProxyConfig::plain("h2", 2, None),
        ProxyConfig::plain("h3", 3, None),
    ];
    let pool = Pool::new_with_proxies(configs, opts(2, 3));
    assert_eq!(pool.len(), 2);
}

#[test]
fn startup_with_empty_list() {
    let mut config = Config::default();
    assert!(config.ensure_upstream());
    assert_eq!(config.proxies.len(), 1);
    assert_eq!(config.proxies[0].host, "127.0.0.1");
    assert_eq!(config.proxies[0].port, 1080);
    let mut pool = Pool::new_with_proxies(config.proxies.clone(), PoolOptions::from_config(&config));
    let only = pool.get_all_proxies()[0].clone();
    assert_eq!(only.status, ProxyStatus::Untested);
    pool.apply_test_results(&vec![TestResult::from_probe(only.id.clone(), Err("connection refused".to_string()), 0)]);
    assert_eq!(pool.get_all_proxies()[0].status, ProxyStatus::Failed);
    assert!(pool.get_available().is_none());
}

#[test]
fn pool_manager_names_are_unique() {
    let mut m = PoolManager::new();
    assert!(m.create_pool("main", opts(5, 3)).is_ok());
    assert!(matches!(m.create_pool("main", opts(5, 3)), Err(Error::Configuration(_))));
    assert!(m.get_pool("main").is_some());
    assert!(m.get_pool("other").is_none());
}

#[test]
fn with_ids_keeps_given_ids_up_to_capacity() {
    let configs = vec![
        ProxyConfig::plain("h1", 1, None),
        ProxyConfig::plain("h2", 2, None),
        ProxyConfig::plain("h3", 3, None),
    ];
    let ids = vec!["i1".to_string(), "i2".to_string(), "i3".to_string()];
    let pool = Pool::with_ids(&configs, &ids, opts(2, 3));
    let all = pool.get_all_proxies();
    assert_eq!(all.len(), 2);
    assert!(all.iter().any(|p| p.id == "i1" && p.info.host == "h1"));
    assert!(all.iter().any(|p| p.id == "i2" && p.info.host == "h2"));
    let roomy = Pool::with_ids(&configs, &ids, opts(10, 3));
    assert_eq!(roomy.len(), 3);
}

#[test]
fn health_cycle_keeps_unprobed_entries() {
    let mut pool = measured(&[("a", 10), ("b", 20)]);
    let evicted = pool.health_cycle(&vec![HealthProbe { id: "a".to_string(), latency: Some(99) }], 1);
    assert!(evicted.is_empty());
    let all = pool.get_all_proxies();
    let b = all.iter().find(|p| p.id == "b").unwrap();
    assert_eq!(b.latency, 20);
    assert_eq!(pool.get_available().unwrap().id, "b");
}

#[test]
fn retry_ignores_entries_that_are_not_failed() {
    let mut pool = measured(&[("a", 10), ("b", 20)]);
    pool.apply_test_results(&vec![failed("b")]);
    assert!(!pool.apply_retry_results(&vec![ok("a", 99)]));
    let a = pool.get_all_proxies().into_iter().find(|p| p.id == "a").unwrap();
    assert_eq!(a.latency, 10);
    assert!(pool.apply_retry_results(&vec![ok("b", 5), ok("b", 7)]));
    let b = pool.get_all_proxies().into_iter().find(|p| p.id == "b").unwrap();
    assert_eq!((b.status, b.latency, b.fail_count), (ProxyStatus::Available, 5, 0));
}

#[test]
fn failed_result_keeps_failure_count_and_address() {
    let mut pool = measured(&[("a", 10)]);
    pool.record_health(&"a".to_string(), None, 1);
    pool.apply_test_results(&vec![failed("a")]);
    let a = &pool.get_all_proxies()[0];
    assert_eq!((a.status, a.fail_count, a.latency, a.info.port), (ProxyStatus::Failed, 1, 10, 1000));
}

#[test]
fn startup_pool_holds_the_fallback_upstream() {
    let mut config = Config::default();
    config.ensure_upstream();
    let pool = Pool::new_with_proxies(config.proxies.clone(), PoolOptions::from_config(&config));
    let all = pool.get_all_proxies();
    assert_eq!(all.len(), 1);
    assert_eq!((all[0].info.host.as_str(), all[0].info.port), ("127.0.0.1", 1080));
    assert_eq!(all[0].status, ProxyStatus::Untested);
    assert_eq!(all[0].latency, lokipool::proxy::LATENCY_UNMEASURED);
}
