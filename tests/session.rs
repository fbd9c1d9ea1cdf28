use lokipool::codec::{decode_greeting, encode_request, Request, TargetAddr};
use lokipool::session::{client_reply, offers_no_auth, upstream_greeting, Action, Event, Phase, Session};
use lokipool::{Pool, PoolOptions, Proxy, TestResult};

fn two_upstreams() -> Pool {
    let mut pool = Pool::new(PoolOptions::default());
    pool.add(Proxy::with_id("A".to_string(), "10.0.0.1".to_string(), 1081, None, None)).unwrap();
    pool.add(Proxy::with_id("B".to_string(), "10.0.0.2".to_string(), 1082, None, None)).unwrap();
    pool.apply_test_results(&vec![
        TestResult::from_probe("A".to_string(), Ok(30), 0),
        TestResult::from_probe("B".to_string(), Ok(70), 0),
    ]);
    pool
}

fn connect_request() -> Vec<u8> {
    vec![5, 1, 0, 1, 1, 2, 3, 4, 0x01, 0xbb]
}

/// Drives a session through greeting and request; returns it at PICK.
fn at_pick() -> Session {
    let mut s = Session::new();
    match s.step(Event::Client(vec![5, 1, 0])) {
        Action::ReplyClient { bytes, consumed, lenient } => {
            assert_eq!(bytes, vec![5, 0]);
            assert_eq!(consumed, 3);
            assert!(!lenient);
        }
        other => panic!("unexpected {:?}", other),
    }
    match s.step(Event::Client(connect_request())) {
        Action::Pick { consumed } => assert_eq!(consumed, 10),
        other => panic!("unexpected {:?}", other),
    }
    assert_eq!(s.phase(), Phase::Pick);
    s
}

#[test]
fn happy_path_selects_fastest_and_relays() {
    let pool = two_upstreams();
    let mut s = at_pick();
    let pick = pool.get_available();
    match s.step(Event::Picked(pick)) {
        Action::Dial { host, port } => {
            assert_eq!(host, "10.0.0.1");
            assert_eq!(port, 1081);
        }
        other => panic!("unexpected {:?}", other),
    }
    match s.step(Event::Dialed(true)) {
        Action::SendUpstream { bytes, consumed } => {
            assert_eq!(bytes, vec![5, 1, 0]);
            assert_eq!(consumed, 0);
        }
        other => panic!("unexpected {:?}", other),
    }
    match s.step(Event::Upstream(vec![5, 0])) {
        Action::SendUpstream { bytes, consumed } => {
            assert_eq!(bytes, connect_request());
            assert_eq!(consumed, 2);
        }
        other => panic!("unexpected {:?}", other),
    }
    match s.step(Event::Upstream(vec![5, 0, 0, 1, 9, 9, 9, 9, 0, 80])) {
        Action::Relay { reply, consumed } => {
            assert_eq!(reply, vec![5, 0, 0, 1, 0, 0, 0, 0, 0, 0]);
            assert_eq!(consumed, 10);
        }
        other => panic!("unexpected {:?}", other),
    }
    assert_eq!(s.phase(), Phase::Relay);
}

#[test]
fn empty_pool_replies_host_unreachable() {
    let pool = Pool::new(PoolOptions::default());
    let mut s = at_pick();
    match s.step(Event::Picked(pool.get_available())) {
        Action::Close { farewell } => assert_eq!(farewell, Some(vec![5, 4, 0, 1, 0, 0, 0, 0, 0, 0])),
        other => panic!("unexpected {:?}", other),
    }
    assert_eq!(s.phase(), Phase::Closed);
}

#[test]
fn upstream_rejecting_method_gets_general_failure() {
    let pool = two_upstreams();
    let mut s = at_pick();
    s.step(Event::Picked(pool.get_available()));
    s.step(Event::Dialed(true));
    match s.step(Event::Upstream(vec![5, 0xff])) {
        Action::Close { farewell } => assert_eq!(farewell, Some(vec![5, 1, 0, 1, 0, 0, 0, 0, 0, 0])),
        other => panic!("unexpected {:?}", other),
    }
    // the session never touches the pool: nothing was evicted
    assert_eq!(pool.len(), 2);
    assert_eq!(pool.get_available().unwrap().id, "A");
}

#[test]
fn dial_failure_gets_general_failure() {
    let pool = two_upstreams();
    let mut s = at_pick();
    s.step(Event::Picked(pool.get_available()));
    match s.step(Event::Dialed(false)) {
        Action::Close { farewell } => assert_eq!(farewell, Some(client_reply(1))),
        other => panic!("unexpected {:?}", other),
    }
}

#[test]
fn upstream_refusing_target_gets_general_failure() {
    let pool = two_upstreams();
    let mut s = at_pick();
    s.step(Event::Picked(pool.get_available()));
    s.step(Event::Dialed(true));
    s.step(Event::Upstream(vec![5, 0]));
    match s.step(Event::Upstream(vec![5, 5, 0, 1, 0, 0, 0, 0, 0, 0])) {
        Action::Close { farewell } => assert_eq!(farewell, Some(client_reply(1))),
        other => panic!("unexpected {:?}", other),
    }
}

#[test]
fn partial_frames_wait() {
    let mut s = Session::new();
    assert!(matches!(s.step(Event::Client(vec![5])), Action::Wait));
    assert_eq!(s.phase(), Phase::Greeting);
    assert!(matches!(s.step(Event::Client(vec![5, 2, 0])), Action::Wait));
    assert!(matches!(s.step(Event::Client(vec![5, 2, 0, 1])), Action::ReplyClient { .. }));
    assert!(matches!(s.step(Event::Client(vec![5, 1, 0, 3, 5, b'a'])), Action::Wait));
    assert_eq!(s.phase(), Phase::Request);
}

#[test]
fn non_socks5_client_is_closed() {
    let mut s = Session::new();
    match s.step(Event::Client(vec![4, 1, 0])) {
        Action::Close { farewell } => assert_eq!(farewell, None),
        other => panic!("unexpected {:?}", other),
    }
    assert_eq!(s.phase(), Phase::Closed);
}

#[test]
fn bind_command_is_closed() {
    let mut s = Session::new();
    s.step(Event::Client(vec![5, 1, 0]));
    assert!(matches!(s.step(Event::Client(vec![5, 2, 0, 1, 1, 2, 3, 4, 0, 80])), Action::Close { .. }));
    assert_eq!(s.phase(), Phase::Closed);
}

#[test]
fn events_after_close_keep_it_closed() {
    let mut s = Session::new();
    s.step(Event::Client(vec![9]));
    assert!(matches!(s.step(Event::Dialed(true)), Action::Close { farewell: None }));
    assert_eq!(s.phase(), Phase::Closed);
}

#[test]
fn ipv6_target_is_forwarded_whole() {
    let mut s = Session::new();
    s.step(Event::Client(vec![5, 1, 0]));
    let q = Request { addr: TargetAddr::Ipv6([0xfe, 0x80, 0, 0, 0, 0, 0, 0, 0, 0, 0, 0, 0, 0, 0, 1]), port: 22 };
    let bytes = encode_request(&q);
    assert!(matches!(s.step(Event::Client(bytes.clone())), Action::Pick { .. }));
    let up = Proxy::with_id("u".to_string(), "h".to_string(), 1, None, None);
    s.step(Event::Picked(Some(up)));
    s.step(Event::Dialed(true));
    match s.step(Event::Upstream(vec![5, 0])) {
        Action::SendUpstream { bytes: sent, .. } => assert_eq!(sent, bytes),
        other => panic!("unexpected {:?}", other),
    }
}

#[test]
fn greeting_helpers() {
    assert_eq!(upstream_greeting(), vec![5, 1, 0]);
    let (g, _) = decode_greeting(&[5, 2, 1, 2]).unwrap();
    assert!(!offers_no_auth(&g));
    let (g, _) = decode_greeting(&[5, 2, 2, 0]).unwrap();
    assert!(offers_no_auth(&g));
}

#[test]
fn greeting_without_no_auth_is_accepted_leniently() {
    let mut s = Session::new();
    match s.step(Event::Client(vec![5, 1, 2])) {
        Action::ReplyClient { bytes, consumed, lenient } => {
            assert_eq!(bytes, vec![5, 0]);
            assert_eq!(consumed, 3);
            assert!(lenient);
        }
        other => panic!("unexpected {:?}", other),
    }
    assert_eq!(s.phase(), Phase::Request);
}

#[test]
fn partial_upstream_reply_waits() {
    let mut s = at_pick();
    s.step(Event::Picked(Some(Proxy::with_id("u".to_string(), "h".to_string(), 1, None, None))));
    s.step(Event::Dialed(true));
    assert!(matches!(s.step(Event::Upstream(vec![5])), Action::Wait));
    assert_eq!(s.phase(), Phase::UpstreamGreeting);
    s.step(Event::Upstream(vec![5, 0]));
    assert!(matches!(s.step(Event::Upstream(vec![5, 0, 0, 3, 9, b'x'])), Action::Wait));
    assert_eq!(s.phase(), Phase::UpstreamRequest);
}
