use ggg::download::circuit_breaker::{
    extract_domain, CircuitBreaker, CircuitBreakerConfig, CircuitState,
};
use std::time::Duration;

fn at(millis: u64) -> u128 {
    Duration::from_millis(millis).as_nanos()
}

#[test]
fn test_circuit_starts_closed() {
    let mut breaker = CircuitBreaker::new();
    assert_eq!(breaker.can_request("example.com"), CircuitState::Closed);
}

#[test]
fn test_circuit_opens_after_threshold() {
    let config = CircuitBreakerConfig {
        failure_threshold: 3,
        cooldown_duration: Duration::from_secs(60).as_nanos(),
        success_reset_duration: Duration::from_secs(300).as_nanos(),
    };
    let mut breaker = CircuitBreaker::with_config(config);

    breaker.record_failure("example.com");
    breaker.record_failure("example.com");
    assert_eq!(breaker.can_request("example.com"), CircuitState::Closed);

    let opened = breaker.record_failure("example.com");
    assert!(opened);
    assert_eq!(breaker.can_request("example.com"), CircuitState::Open);
}

#[test]
fn test_success_resets_failures() {
    let config = CircuitBreakerConfig { failure_threshold: 3, ..Default::default() };
    let mut breaker = CircuitBreaker::with_config(config);

    breaker.record_failure("example.com");
    breaker.record_failure("example.com");
    breaker.record_success("example.com");

    let (state, failures) = breaker.get_status("example.com");
    assert_eq!(state, CircuitState::Closed);
    assert_eq!(failures, 0);
}

#[test]
fn test_extract_domain() {
    assert_eq!(extract_domain("https://example.com/path"), Some("example.com".to_string()));
    assert_eq!(
        extract_domain("http://sub.example.com:8080/path"),
        Some("sub.example.com".to_string())
    );
    assert_eq!(extract_domain("not-a-url"), None);
}

#[test]
fn test_different_domains_independent() {
    let config = CircuitBreakerConfig { failure_threshold: 2, ..Default::default() };
    let mut breaker = CircuitBreaker::with_config(config);

    breaker.record_failure("domain1.com");
    breaker.record_failure("domain1.com");
    assert_eq!(breaker.can_request("domain1.com"), CircuitState::Open);

    assert_eq!(breaker.can_request("domain2.com"), CircuitState::Closed);
}

#[test]
fn test_get_open_circuits() {
    let config = CircuitBreakerConfig { failure_threshold: 1, ..Default::default() };
    let mut breaker = CircuitBreaker::with_config(config);

    breaker.record_failure("fail1.com");
    breaker.record_failure("fail2.com");
    breaker.record_success("success.com");

    let open = breaker.get_open_circuits();
    assert_eq!(open.len(), 2);
    assert!(open.contains(&"fail1.com".to_string()));
    assert!(open.contains(&"fail2.com".to_string()));
}

#[test]
fn an_open_circuit_is_tried_after_the_cooldown() {
    let config = CircuitBreakerConfig { failure_threshold: 1, ..Default::default() };
    let mut breaker = CircuitBreaker::with_config(config);
    assert!(breaker.record_failure_at("a", at(1_000)));
    assert_eq!(breaker.can_request_at("a", at(60_999)), CircuitState::Open);
    assert_eq!(breaker.can_request_at("a", at(61_000)), CircuitState::HalfOpen);
    assert!(breaker.record_failure_at("a", at(61_000)));
    assert_eq!(breaker.can_request_at("a", at(61_001)), CircuitState::Open);
    breaker.record_success_at("a", at(70_000));
    assert_eq!(breaker.get_status("a"), (CircuitState::Closed, 0));
}

#[test]
fn old_failures_are_forgotten() {
    let config = CircuitBreakerConfig { failure_threshold: 2, ..Default::default() };
    let mut breaker = CircuitBreaker::with_config(config);
    breaker.record_success_at("a", at(0));
    breaker.record_failure_at("a", at(1));
    assert_eq!(breaker.get_status("a").1, 1);
    breaker.record_failure_at("a", at(300_001));
    assert_eq!(breaker.get_status("a").1, 1);
    assert!(breaker.can_count());
}

#[test]
fn circuits_can_be_reset() {
    let config = CircuitBreakerConfig { failure_threshold: 1, ..Default::default() };
    let mut breaker = CircuitBreaker::with_config(config);
    breaker.record_failure("a");
    breaker.record_failure("b");
    assert!(breaker.is_open("a"));
    breaker.reset("a");
    assert!(!breaker.is_open("a"));
    breaker.clear_all();
    assert!(breaker.get_open_circuits().is_empty());
}

#[test]
fn failures_long_after_a_success_open_the_circuit() {
    let config = CircuitBreakerConfig { failure_threshold: 2, ..Default::default() };
    let mut breaker = CircuitBreaker::with_config(config);
    breaker.record_success_at("a", at(0));
    assert!(!breaker.record_failure_at("a", at(400_000)));
    assert!(breaker.record_failure_at("a", at(400_001)));
    assert_eq!(breaker.can_request_at("a", at(400_002)), CircuitState::Open);
}

#[test]
fn a_half_open_circuit_lets_one_download_pass() {
    let config = CircuitBreakerConfig { failure_threshold: 1, ..Default::default() };
    let mut breaker = CircuitBreaker::with_config(config);
    breaker.record_failure_at("a", at(0));
    assert!(breaker.blocks("a"));
    assert!(!breaker.blocks("b"));
    assert_eq!(breaker.can_request_at("a", at(60_000)), CircuitState::HalfOpen);
    assert!(!breaker.blocks("a"));
    breaker.let_pass("a", 1);
    breaker.let_pass("b", 2);
    assert!(breaker.blocks("a"));
    assert!(!breaker.blocks("b"));
    assert_eq!(breaker.get_status("a").0, CircuitState::HalfOpen);
    breaker.release(2);
    assert!(breaker.blocks("a"));
    breaker.release(1);
    assert!(!breaker.blocks("a"));
    breaker.let_pass("a", 3);
    assert!(breaker.record_failure_at("a", at(60_001)));
    assert_eq!(breaker.can_request_at("a", at(120_001)), CircuitState::HalfOpen);
    assert!(!breaker.blocks("a"));
    breaker.let_pass("a", 3);
    breaker.clear_all();
    assert!(!breaker.blocks("a"));
}
