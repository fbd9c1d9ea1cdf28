use lokipool::config::{create_example_config, default_proxy_type, default_test_urls};
use lokipool::tester::ProbeVerdict;
use lokipool::{ApiConfig, CliConfig, Command, Config, PoolOptions, ProxyStatus, SocksServerConfig, TestOptions, Tester};
use lokipool::{Proxy, ProxyInfo};

#[test]
fn config_defaults() {
    let c = Config::default();
    assert_eq!(c.timeout_ms, 10000);
    assert_eq!(c.max_connections, 100);
    assert_eq!(c.retry_count, 3);
    assert_eq!(c.proxy.proxy_file, "proxies.txt");
    assert_eq!(c.proxy.test_timeout, 10);
    assert_eq!(c.proxy.health_check_interval, 300);
    assert_eq!(c.proxy.retry_times, 3);
    assert!(!c.proxy.auto_switch);
    assert_eq!(c.proxy.switch_interval, 300);
    assert!(c.proxies.is_empty());
    assert_eq!(c.test_urls, vec!["http://www.baidu.com".to_string()]);
    assert_eq!(c.server.bind_host, "127.0.0.1");
    assert_eq!(c.server.bind_port, 1080);
    assert_eq!(default_test_urls().len(), 1);
    assert_eq!(default_proxy_type(), "socks5");
}

#[test]
fn ensure_upstream_keeps_configured_list() {
    let mut c = create_example_config();
    assert!(!c.ensure_upstream());
    assert_eq!(c.proxies.len(), 1);
    assert_eq!(c.proxies[0].port, 12333);
}

#[test]
fn pool_options_from_config() {
    let mut c = Config::default();
    c.max_connections = 7;
    c.proxy.retry_times = 5;
    c.proxy.health_check_interval = 60;
    let o = PoolOptions::from_config(&c);
    assert_eq!(o.max_size, 7);
    assert_eq!(o.max_failures, 5);
    assert_eq!(o.test_interval, 60);
    assert_eq!(o.probe_timeout, 10);
    assert!(o.auto_test);
}

#[test]
fn other_defaults() {
    let s = SocksServerConfig::default();
    assert_eq!((s.bind_address.as_str(), s.bind_port), ("127.0.0.1", 1080));
    let a = ApiConfig::default();
    assert_eq!((a.bind_address.as_str(), a.bind_port, a.enable_cors), ("127.0.0.1", 3000, false));
    let c = CliConfig::default();
    assert!(c.show_banner && c.colored_output);
    assert_eq!(ProxyStatus::default(), ProxyStatus::Untested);
    assert_eq!(ProxyStatus::InUse.as_str(), "In Use");
    let p = PoolOptions::default();
    assert_eq!((p.max_size, p.test_interval, p.max_failures), (100, 300, 3));
}

#[test]
fn commands_parse() {
    assert_eq!(Command::parse("list"), Some(Command::List));
    assert_eq!(Command::parse("show"), Some(Command::Show));
    assert_eq!(Command::parse("next"), Some(Command::Next));
    assert_eq!(Command::parse("test"), Some(Command::Test));
    assert_eq!(Command::parse("diagnose"), Some(Command::Diag));
    assert_eq!(Command::parse("help"), Some(Command::Help));
    assert_eq!(Command::parse("exit"), Some(Command::Quit));
    assert_eq!(Command::parse("quit"), Some(Command::Quit));
    assert_eq!(Command::parse("LIST"), None);
    assert_eq!(Command::parse(""), None);
}

#[test]
fn tester_judges_probes() {
    let t = Tester::new(TestOptions::default());
    assert_eq!(t.options.request_timeout, 30);
    assert_eq!(t.judge(200, 120), ProbeVerdict::Passed(120));
    assert_eq!(t.judge(503, 120), ProbeVerdict::BadStatus(503));
    assert_eq!(t.judge(204, 30_001), ProbeVerdict::TimedOut);
    assert_eq!(t.judge(204, 30_000), ProbeVerdict::Passed(30_000));
}

#[test]
fn test_result_shapes() {
    let ok = lokipool::TestResult::from_probe("i".to_string(), Ok(12), 7);
    assert!(ok.success && ok.latency == Some(12) && ok.error.is_none() && ok.timestamp == 7);
    let bad = lokipool::TestResult::from_probe("i".to_string(), Err("x".to_string()), 7);
    assert!(!bad.success && bad.latency.is_none() && bad.error == Some("x".to_string()));
    let top = lokipool::TestResult::from_probe("i".to_string(), Ok(u64::MAX), 7);
    assert_eq!(top.latency, Some(u64::MAX - 1));
}

#[test]
fn proxy_urls_and_updates() {
    let p = Proxy::with_id("id".to_string(), "h".to_string(), 1080, Some("u".to_string()), Some("p".to_string()));
    assert_eq!(p.url(), "socks5://u:p@h:1080");
    assert_eq!(p.address(), "h:1080");
    let mut q = Proxy::new("h2".to_string(), 9, None, None);
    assert_eq!(q.url(), "socks5://h2:9");
    assert_eq!(q.id.len(), 36);
    assert_ne!(q.id, Proxy::new("h2".to_string(), 9, None, None).id);
    q.update_status_and_latency(ProxyStatus::Available, Some(42));
    assert_eq!((q.status, q.info.status, q.latency), (ProxyStatus::Available, ProxyStatus::Available, 42));
    assert_eq!(q.info.last_latency, Some(42));
    assert!(q.last_tested.is_some() && q.info.last_checked.is_some());
    let info = ProxyInfo::new("x", 1, None, None);
    assert_eq!(info.proxy_type, "socks5");
    assert_eq!(info.status, ProxyStatus::Untested);
}

fn no_fields() -> lokipool::config::ConfigFields {
    lokipool::config::ConfigFields {
        timeout_ms: None,
        max_connections: None,
        retry_count: None,
        test_urls: None,
        proxy_file: None,
        test_timeout: None,
        health_check_interval: None,
        retry_times: None,
        auto_switch: None,
        switch_interval: None,
        bind_host: None,
        bind_port: None,
        proxies: Vec::new(),
    }
}

#[test]
fn fields_default_when_missing() {
    let c = Config::from_fields(&no_fields());
    assert_eq!(c.timeout_ms, 10000);
    assert_eq!(c.max_connections, 100);
    assert_eq!(c.proxy.retry_times, 3);
    assert_eq!(c.test_urls, vec!["http://www.baidu.com".to_string()]);
    assert_eq!(c.proxies.len(), 1);
    assert_eq!((c.proxies[0].host.as_str(), c.proxies[0].port), ("127.0.0.1", 1080));
    assert_eq!(c.proxies[0].location.as_deref(), Some("Local Default"));
}

#[test]
fn fields_taken_when_in_range() {
    let mut f = no_fields();
    f.timeout_ms = Some(2500);
    f.max_connections = Some(-4);
    f.retry_times = Some(5);
    f.bind_port = Some(70000);
    f.auto_switch = Some(true);
    f.switch_interval = Some(1);
    f.test_urls = Some(Vec::new());
    f.proxies = vec![lokipool::config::ProxyFields {
        host: Some("10.9.9.9".to_string()),
        port: Some(9050),
        username: Some("u".to_string()),
        password: None,
        location: None,
        proxy_type: None,
    }];
    let c = Config::from_fields(&f);
    assert_eq!(c.timeout_ms, 2500);
    assert_eq!(c.max_connections, 100);
    assert_eq!(c.proxy.retry_times, 5);
    assert_eq!(c.server.bind_port, 1080);
    assert!(c.proxy.auto_switch);
    assert_eq!(c.proxy.switch_interval, 1);
    assert_eq!(c.test_urls.len(), 1);
    assert_eq!(c.proxies.len(), 1);
    assert_eq!(c.proxies[0].host, "10.9.9.9");
    assert_eq!(c.proxies[0].port, 9050);
    assert_eq!(c.proxies[0].username.as_deref(), Some("u"));
    assert_eq!(c.proxies[0].proxy_type, "socks5");
}
