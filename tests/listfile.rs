use lokipool::listfile::{parse_address, parse_proxy_list, render_proxy_list};
use lokipool::{Pool, PoolOptions, Proxy, TestResult};
use std::collections::HashSet;

#[test]
fn parse_skips_blanks_and_duplicates() {
    let text = "1.1.1.1:1080\n\n  2.2.2.2:9050 \r\n1.1.1.1:1080\n\t\n3.3.3.3:80";
    assert_eq!(
        parse_proxy_list(text),
        vec!["1.1.1.1:1080".to_string(), "2.2.2.2:9050".to_string(), "3.3.3.3:80".to_string()]
    );
}

#[test]
fn parse_empty_text() {
    assert!(parse_proxy_list("").is_empty());
    assert!(parse_proxy_list("\n\n  \n").is_empty());
}

#[test]
fn render_joins_with_line_feeds() {
    let lines = vec!["a:1".to_string(), "b:2".to_string()];
    assert_eq!(render_proxy_list(&lines), "a:1\nb:2");
    assert_eq!(render_proxy_list(&Vec::new()), "");
}

#[test]
fn pool_file_round_trip() {
    let mut pool = Pool::new(PoolOptions::default());
    pool.add(Proxy::with_id("1".to_string(), "10.0.0.1".to_string(), 1080, Some("u".to_string()), Some("p".to_string()))).unwrap();
    pool.add(Proxy::with_id("2".to_string(), "proxy.example".to_string(), 9050, None, None)).unwrap();
    pool.add(Proxy::with_id("3".to_string(), "10.0.0.1".to_string(), 1080, None, None)).unwrap();
    pool.apply_test_results(&vec![TestResult::from_probe("2".to_string(), Ok(5), 0)]);
    let written = render_proxy_list(&pool.addresses());
    let back: HashSet<String> = parse_proxy_list(&written).into_iter().collect();
    let expected: HashSet<String> = pool.addresses().into_iter().collect();
    assert_eq!(back, expected);
    assert_eq!(back.len(), 2);
}

#[test]
fn parse_address_splits_at_last_colon() {
    assert_eq!(parse_address("1.2.3.4:1080"), Some(("1.2.3.4".to_string(), 1080)));
    assert_eq!(parse_address("::1:9050"), Some(("::1".to_string(), 9050)));
    assert_eq!(parse_address("host:65535"), Some(("host".to_string(), 65535)));
}

#[test]
fn parse_address_rejects_bad_lines() {
    assert_eq!(parse_address("nohost"), None);
    assert_eq!(parse_address(":1080"), None);
    assert_eq!(parse_address("h:"), None);
    assert_eq!(parse_address("h:0"), None);
    assert_eq!(parse_address("h:65536"), None);
    assert_eq!(parse_address("h:123456"), None);
    assert_eq!(parse_address("h:80a"), None);
}
