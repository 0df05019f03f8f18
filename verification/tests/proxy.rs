use balancebeam::conn::{append_forwarded_for, conn_step, ConnAction, ConnEvent, ConnState,
    ReadOutcome, STATUS_BAD_GATEWAY, STATUS_BAD_REQUEST, STATUS_PAYLOAD_TOO_LARGE,
    STATUS_TOO_MANY_REQUESTS};
use balancebeam::health::{probe_passes, rebuild_healthy};
use balancebeam::rate::RateLimiter;
use balancebeam::registry::UpstreamRegistry;
use balancebeam::selector::Selector;

fn addresses(names: &[&str]) -> Vec<String> {
    names.iter().map(|n| n.to_string()).collect()
}

#[test]
fn test_probe_passes_only_on_200() {
    assert!(probe_passes(200));
    assert!(!probe_passes(404));
    assert!(!probe_passes(500));
    assert!(!probe_passes(201));
}

#[test]
fn test_health_all_pass_gives_full_list() {
    let cfg = addresses(&["a:1", "b:2", "c:3"]);
    let healthy = rebuild_healthy(&cfg, &vec![true, true, true]);
    assert_eq!(healthy, cfg);
}

#[test]
fn test_health_failing_upstream_excluded_then_recovered() {
    let cfg = addresses(&["a:1", "b:2", "c:3"]);
    let healthy = rebuild_healthy(&cfg, &vec![true, false, true]);
    assert_eq!(healthy, addresses(&["a:1", "c:3"]));
    // The next cycle sees it answering again: back in, order kept.
    let recovered = rebuild_healthy(&cfg, &vec![true, true, true]);
    assert_eq!(recovered, cfg);
}

#[test]
fn test_health_all_down_gives_empty_list() {
    let cfg = addresses(&["a:1", "b:2"]);
    let healthy = rebuild_healthy(&cfg, &vec![false, false]);
    assert!(healthy.is_empty());
}

#[test]
fn test_registry_snapshot_and_replace() {
    let cfg = addresses(&["a:1", "b:2"]);
    let mut reg = UpstreamRegistry::new(cfg.clone());
    assert_eq!(reg.snapshot(), cfg);
    reg.replace(addresses(&["b:2"]));
    assert_eq!(reg.snapshot(), addresses(&["b:2"]));
    reg.replace(Vec::new());
    assert_eq!(reg.snapshot(), Vec::<String>::new());
}

#[test]
fn test_rate_limit_burst_then_reject_then_reset() {
    let mut limiter = RateLimiter::new(3);
    for _ in 0..3 {
        assert!(limiter.check_admission("1.2.3.4"));
    }
    // The fourth request in the same window is rejected.
    assert!(!limiter.check_admission("1.2.3.4"));
    // Another client is unaffected.
    assert!(limiter.check_admission("5.6.7.8"));
    // After the window reset, admission resumes.
    limiter.reset_all();
    assert!(limiter.check_admission("1.2.3.4"));
}

#[test]
fn test_rate_limit_zero_is_unlimited() {
    let mut limiter = RateLimiter::new(0);
    for _ in 0..1000 {
        assert!(limiter.check_admission("1.2.3.4"));
    }
    // The table was never consulted, let alone written.
    assert!(limiter.entries.is_empty());
}

#[test]
fn test_selector_start_in_range() {
    for _ in 0..50 {
        let sel = Selector::new(3);
        assert!(sel.cursor < 3);
        assert_eq!(sel.cursor, sel.start);
    }
    let sel = Selector::new(1);
    assert_eq!(sel.cursor, 0);
}

#[test]
fn test_selector_fails_over_to_reachable_upstream() {
    // Healthy set {A, B, C}; A and B refuse connections.
    let reachable = [false, false, true];
    let mut sel = Selector::new(3);
    let mut connected: Option<usize> = None;
    loop {
        if reachable[sel.cursor] {
            connected = Some(sel.cursor);
            break;
        }
        if !sel.advance() {
            break;
        }
    }
    assert_eq!(connected, Some(2));
}

#[test]
fn test_selector_gives_up_after_full_sweep() {
    // All three refuse: the walk ends after trying each exactly once.
    let mut sel = Selector::new(3);
    let mut tried = Vec::new();
    loop {
        tried.push(sel.cursor);
        if !sel.advance() {
            break;
        }
    }
    tried.sort();
    assert_eq!(tried, vec![0, 1, 2]);
}

#[test]
fn test_conn_no_upstream_gives_502_and_closes() {
    let (state, action) = conn_step(ConnState::Selecting, ConnEvent::UpstreamSelected(None));
    assert_eq!(action, ConnAction::ReplyAndClose(STATUS_BAD_GATEWAY));
    assert!(matches!(state, ConnState::Closed));
}

#[test]
fn test_conn_two_requests_same_pinned_upstream() {
    let (state, action) = conn_step(
        ConnState::Selecting,
        ConnEvent::UpstreamSelected(Some("a:1".to_string())),
    );
    assert_eq!(action, ConnAction::AwaitRequest);
    // First request: read, admit, forward, relay.
    let (state, action) = conn_step(state, ConnEvent::RequestRead(ReadOutcome::Parsed));
    assert_eq!(action, ConnAction::CheckRate);
    let (state, action) = conn_step(state, ConnEvent::RateChecked(true));
    assert_eq!(action, ConnAction::ForwardRequest);
    assert!(matches!(&state, ConnState::Ready { upstream } if upstream == "a:1"));
    let (state, action) = conn_step(state, ConnEvent::ForwardDone(true));
    assert_eq!(action, ConnAction::RelayResponse);
    let (state, action) = conn_step(state, ConnEvent::RelayDone(true));
    assert_eq!(action, ConnAction::AwaitRequest);
    // Second request on the same socket: still the same pinned upstream,
    // whatever happened to the healthy set meanwhile.
    let (state, action) = conn_step(state, ConnEvent::RequestRead(ReadOutcome::Parsed));
    assert_eq!(action, ConnAction::CheckRate);
    let (state, _) = conn_step(state, ConnEvent::RateChecked(true));
    assert!(matches!(&state, ConnState::Ready { upstream } if upstream == "a:1"));
}

#[test]
fn test_conn_oversized_body_gives_one_413_and_stays_open() {
    let state = ConnState::Ready { upstream: "a:1".to_string() };
    let (state, action) = conn_step(state, ConnEvent::RequestRead(ReadOutcome::BodyTooLarge));
    assert_eq!(action, ConnAction::ReplyAndContinue(STATUS_PAYLOAD_TOO_LARGE));
    // The connection is still serving and still pinned.
    assert!(matches!(&state, ConnState::Ready { upstream } if upstream == "a:1"));
}

#[test]
fn test_conn_parse_errors_give_400_and_stay_open() {
    for outcome in [
        ReadOutcome::Incomplete { bytes_read: 17 },
        ReadOutcome::Malformed,
        ReadOutcome::InvalidContentLength,
        ReadOutcome::ContentLengthMismatch,
    ] {
        let state = ConnState::Ready { upstream: "a:1".to_string() };
        let (state, action) = conn_step(state, ConnEvent::RequestRead(outcome));
        assert_eq!(action, ConnAction::ReplyAndContinue(STATUS_BAD_REQUEST));
        assert!(matches!(state, ConnState::Ready { .. }));
    }
}

#[test]
fn test_conn_clean_close_and_transport_error_close_silently() {
    let state = ConnState::Ready { upstream: "a:1".to_string() };
    let (state, action) = conn_step(
        state,
        ConnEvent::RequestRead(ReadOutcome::Incomplete { bytes_read: 0 }),
    );
    assert_eq!(action, ConnAction::CloseSilently);
    assert!(matches!(state, ConnState::Closed));

    let state = ConnState::Ready { upstream: "a:1".to_string() };
    let (state, action) = conn_step(state, ConnEvent::RequestRead(ReadOutcome::TransportError));
    assert_eq!(action, ConnAction::CloseSilently);
    assert!(matches!(state, ConnState::Closed));
}

#[test]
fn test_conn_rate_rejection_gives_429_and_stays_open() {
    let state = ConnState::Ready { upstream: "a:1".to_string() };
    let (state, action) = conn_step(state, ConnEvent::RateChecked(false));
    assert_eq!(action, ConnAction::ReplyAndContinue(STATUS_TOO_MANY_REQUESTS));
    assert!(matches!(state, ConnState::Ready { .. }));
}

#[test]
fn test_conn_upstream_failures_give_502_and_close() {
    let state = ConnState::Ready { upstream: "a:1".to_string() };
    let (state, action) = conn_step(state, ConnEvent::ForwardDone(false));
    assert_eq!(action, ConnAction::ReplyAndClose(STATUS_BAD_GATEWAY));
    assert!(matches!(state, ConnState::Closed));

    let state = ConnState::Ready { upstream: "a:1".to_string() };
    let (state, action) = conn_step(state, ConnEvent::RelayDone(false));
    assert_eq!(action, ConnAction::ReplyAndClose(STATUS_BAD_GATEWAY));
    assert!(matches!(state, ConnState::Closed));
}

#[test]
fn test_append_forwarded_for() {
    assert_eq!(append_forwarded_for(None, "1.2.3.4"), "1.2.3.4");
    assert_eq!(
        append_forwarded_for(Some("10.0.0.1, 10.0.0.2"), "1.2.3.4"),
        "10.0.0.1, 10.0.0.2, 1.2.3.4"
    );
}
