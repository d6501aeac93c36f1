use rozum::proxy::{
    bad_gateway, copy_response_headers, daemon_url, estimate_cost, forward_request_headers,
    free_slots, is_hop_by_hop, jitter, json_string, keep_waiting, poisoned, proxy_admit_config,
    refused_at_the_gate, retry_after, Action, Forwarding, Header, Outcome, ProxySettings,
    ProxyState, RetryPolicy,
};

fn settings() -> ProxySettings {
    ProxySettings {
        max_attempts: Some(1),
        backoff_ms: Some(1),
        health_wait_secs: Some(0),
        admit_limit: None,
        fastlane_tokens: None,
        poison_max: Some(3),
        poison_ttl_secs: None,
    }
}

#[test]
fn cost_scales_with_body_size_for_fast_lane() {
    let small = estimate_cost(b"{\"q\":\"hi\"}");
    let big = estimate_cost(&vec![b'x'; 40_000]);
    assert!(small.weight() < big.weight());
    assert!(small.weight() < 1024, "tiny body lands in the fast lane");
    assert!(big.weight() >= 1024, "big body does not");
}

#[test]
fn poison_count_bumps_and_clears() {
    let mut st = ProxyState::new(1, &settings());
    let fp = 0x42;
    assert_eq!(st.poison_count(fp), 0);
    assert_eq!(st.bump_poison(fp), 1);
    assert_eq!(st.bump_poison(fp), 2);
    assert_eq!(st.poison_count(fp), 2);
    st.clear_poison(fp);
    assert_eq!(st.poison_count(fp), 0, "a clean success decays the count");
}

#[test]
fn backoff_grows_and_caps_with_jitter() {
    let p = RetryPolicy { max_attempts: 10, base_ms: 100, cap_ms: 1000, health_wait_ms: 1000 };
    for nanos in [0u32, 1, 123_456_789, 500_000_000, 999_999_999] {
        for attempt in 1..=3u32 {
            let step = 100u64 * (1u64 << (attempt - 1));
            let d = (p.backoff(attempt, nanos) / 1_000_000) as u64;
            assert!(d >= step / 2 && d < step * 3 / 2, "attempt {attempt}: {d}ms");
        }
        assert!(p.backoff(20, nanos) / 1_000_000 < 1500);
        // Within the least significant bits of the same product in floating point.
        let f = 100.0 * 1_000_000.0 * (0.5 + f64::from(nanos % 1000) / 1000.0);
        assert!((jitter(100, nanos) as f64 - f).abs() <= 1.0, "{nanos}");
    }
}

fn h(name: &str, value: &str) -> Header {
    Header { name: name.to_string(), value: value.as_bytes().to_vec() }
}

fn value<'a>(v: &'a [Header], name: &str) -> Option<&'a [u8]> {
    v.iter().find(|x| x.name.eq_ignore_ascii_case(name)).map(|x| x.value.as_slice())
}

#[test]
fn drops_hop_by_hop_and_framing_request_headers() {
    let out = forward_request_headers(&vec![
        h("host", "example"),
        h("content-length", "10"),
        h("connection", "close"),
        h("content-type", "application/json"),
        h("authorization", "Bearer x"),
    ]);
    assert!(value(&out, "host").is_none());
    assert!(value(&out, "content-length").is_none());
    assert!(value(&out, "connection").is_none());
    assert_eq!(value(&out, "content-type").unwrap(), b"application/json");
    assert_eq!(value(&out, "authorization").unwrap(), b"Bearer x");
}

#[test]
fn transfer_encoding_is_not_forwarded() {
    let out = forward_request_headers(&vec![
        h("Transfer-Encoding", "chunked"),
        h("content-type", "application/json"),
    ]);
    assert_eq!(out.len(), 1);
    assert_eq!(value(&out, "content-type").unwrap(), b"application/json");
}

#[test]
fn drops_framing_response_headers() {
    let to = copy_response_headers(&vec![
        h("content-length", "42"),
        h("transfer-encoding", "chunked"),
        h("content-type", "text/event-stream"),
    ]);
    assert!(value(&to, "content-length").is_none());
    assert!(value(&to, "transfer-encoding").is_none());
    assert_eq!(value(&to, "content-type").unwrap(), b"text/event-stream");
}

#[test]
fn json_string_escapes() {
    assert_eq!(json_string("a\"b\\c\nd"), r#""a\"b\\c\nd""#);
}

#[test]
fn strings_are_escaped_as_serde_escapes_them() {
    for s in ["", "plain", "tab\tcr\rnl\n", "quote\" back\\ slash/", "é漢\u{1F600}", "\u{8}\u{c}\u{1f}\u{7f}"] {
        assert_eq!(serde_json::from_str::<String>(&json_string(s)).unwrap(), s);
    }
}

#[test]
fn a_request_that_keeps_crashing_is_refused() {
    let mut set = settings();
    set.max_attempts = Some(10);
    let mut st = ProxyState::new(9, &set);
    let mut f = Forwarding::new(7);
    let crash = Outcome::Failed { is_connect: false, error: "reset".to_string() };
    f.begin_attempt();
    assert!(matches!(f.on_outcome(&mut st, &crash, 1, 0), Action::AwaitHealth { .. }));
    f.begin_attempt();
    assert!(matches!(f.on_outcome(&mut st, &crash, 1, 0), Action::AwaitHealth { .. }));
    f.begin_attempt();
    match f.on_outcome(&mut st, &crash, 1, 0) {
        Action::Refuse { confirm, body } => {
            assert!(confirm);
            assert!(body.contains("poison_refused"));
        }
        _ => panic!("not refused"),
    }
    assert!(refused_at_the_gate(&st, 7, false).is_some());
    assert!(refused_at_the_gate(&st, 8, false).is_none());
    assert!(refused_at_the_gate(&st, 8, true).is_some());
}

#[test]
fn a_dead_daemon_is_a_bad_gateway() {
    let mut st = ProxyState::new(9, &settings());
    let mut f = Forwarding::new(7);
    f.begin_attempt();
    let down = Outcome::Failed { is_connect: true, error: "refused".to_string() };
    match f.on_outcome(&mut st, &down, 1, 0) {
        Action::GiveUp { body } => assert!(body.contains("unreachable after 1 attempts: refused"), "{body}"),
        _ => panic!("not given up"),
    }
    assert_eq!(st.poison_count(7), 0, "a daemon that is down is no crash");
    assert_eq!(st.daemon_port(), 9);
}

#[test]
fn busy_daemons_are_waited_for_and_answers_delivered() {
    let mut set = settings();
    set.max_attempts = Some(3);
    let mut st = ProxyState::new(9, &set);
    let mut f = Forwarding::new(7);
    f.begin_attempt();
    let busy = Outcome::Response { status: 429, retry_after: Some("2".to_string()) };
    assert!(matches!(f.on_outcome(&mut st, &busy, 1, 0), Action::Hold { wait_ns: 2_000_000_000 }));
    f.begin_attempt();
    st.bump_poison(7);
    let ok = Outcome::Response { status: 200, retry_after: None };
    assert!(matches!(f.on_outcome(&mut st, &ok, 1, 0), Action::Deliver { clean: true }));
    assert_eq!(st.poison_count(7), 0);
    let bad = Outcome::Response { status: 500, retry_after: None };
    assert!(matches!(f.on_outcome(&mut st, &bad, 1, 0), Action::Deliver { clean: false }));
}

#[test]
fn small_parts_of_the_proxy() {
    assert_eq!(daemon_url(8080, "/v1/x?y=1"), "http://127.0.0.1:8080/v1/x?y=1");
    assert!(is_hop_by_hop("keep-alive"));
    assert!(is_hop_by_hop("upgrade"));
    assert!(!is_hop_by_hop("accept"));
    assert_eq!(retry_after(" 3 "), Some(3));
    assert_eq!(retry_after("soon"), None);
    assert!(bad_gateway("m").contains("m"));
    assert!(poisoned(255, "why").contains("why"));
    assert_eq!(free_slots("no json"), None);
    assert!(keep_waiting(Some(0), false));
    assert!(!keep_waiting(Some(1), false));
    assert!(!keep_waiting(Some(0), true));
    let p = RetryPolicy::from_settings(Some(0), None, None);
    assert_eq!(p.max_attempts, 1);
    assert!(proxy_admit_config(Some(2), None).limit >= 1);
}
