use rinha::health::{
    status_from_probe, HealthCheck, HealthCheckService, HealthStatus, ProbeOutcome,
    DEFAULT_CACHE_TTL_MS, DEFAULT_RATE_LIMIT_MS,
};

fn standard() -> HealthCheckService {
    HealthCheckService::new(
        "http://payment-processor-default:8080".to_string(),
        "http://payment-processor-fallback:8080".to_string(),
    )
}

fn healthy_at(secs: u64) -> HealthStatus {
    HealthStatus { is_healthy: true, last_check: Some(secs), response_time_ms: Some(12), error_message: None }
}

/// One full check at `now`, answering a probe with `probe`; counts probes.
fn check(
    service: &mut HealthCheckService,
    name: &str,
    now: u64,
    probes: &mut u32,
    probe: &dyn Fn(&str) -> HealthStatus,
) -> HealthStatus {
    match service.check_processor_health(name, now) {
        HealthCheck::Known(s) => s,
        HealthCheck::Probe(url) => {
            *probes += 1;
            let s = probe(&url);
            service.record_health_check(name, s.clone(), now);
            s
        }
    }
}

fn known(r: HealthCheck) -> HealthStatus {
    match r {
        HealthCheck::Known(s) => s,
        HealthCheck::Probe(u) => panic!("unexpected probe of {}", u),
    }
}

fn same(a: &HealthStatus, b: &HealthStatus) -> bool {
    a.is_healthy == b.is_healthy
        && a.last_check == b.last_check
        && a.response_time_ms == b.response_time_ms
        && a.error_message == b.error_message
}

#[test]
fn test_health_check_service_creation() {
    let service = standard();
    assert!(service.get_rate_limit() == 5000);
    assert!(service.get_cache_ttl() == 300000);
    assert_eq!(DEFAULT_RATE_LIMIT_MS, 5000);
    assert_eq!(DEFAULT_CACHE_TTL_MS, 300000);
}

#[test]
fn test_t13_1_health_service_integration() {
    let service = standard();
    assert_eq!(service.get_rate_limit(), 5000);
    assert_eq!(service.get_cache_ttl(), 300000);
    assert!(service.get_health_endpoint_url("default").contains("service-health"));
    assert!(service.get_health_endpoint_url("fallback").contains("service-health"));
}

#[test]
fn first_check_asks_for_a_probe_of_the_endpoint() {
    let service = standard();
    match service.check_processor_health("default", 1000) {
        HealthCheck::Probe(url) => {
            assert_eq!(url, "http://payment-processor-default:8080/payments/service-health")
        }
        HealthCheck::Known(_) => panic!("expected a probe"),
    }
}

#[test]
fn test_health_check_caching() {
    let mut service = standard();
    let mut probes = 0;
    let first = check(&mut service, "default", 1000, &mut probes, &|_| healthy_at(1));
    let second = check(&mut service, "default", 2000, &mut probes, &|_| healthy_at(2));
    assert!(same(&first, &second));
    assert_eq!(probes, 1);
}

#[test]
fn test_health_check_rate_limiting() {
    let mut service = standard();
    service.set_cache_ttl(100);
    let mut probes = 0;
    let first = check(&mut service, "default", 1000, &mut probes, &|_| healthy_at(1));
    // cache expired, but the last probe is under 5 s old: last known result
    let second = check(&mut service, "default", 1200, &mut probes, &|_| healthy_at(2));
    assert!(same(&first, &second));
    assert_eq!(probes, 1);
    assert_eq!(service.get_last_check_time("default"), Some(1000));
}

#[test]
fn test_health_check_cache_expiration() {
    let mut service = standard();
    service.set_cache_ttl(100);
    service.set_rate_limit(0);
    let mut probes = 0;
    check(&mut service, "default", 1000, &mut probes, &|_| healthy_at(1));
    let later = check(&mut service, "default", 1150, &mut probes, &|_| healthy_at(2));
    assert_eq!(probes, 2);
    assert_eq!(later.last_check, Some(2));
    assert_eq!(service.get_last_check_time("default"), Some(1150));
}

#[test]
fn last_known_status_when_probing_is_too_soon() {
    let mut service = standard();
    let unhealthy = HealthStatus { is_healthy: false, last_check: Some(1), response_time_ms: Some(3), error_message: Some("down".to_string()) };
    service.record_health_check("other", unhealthy, 1000);
    service.set_cache_ttl(0);
    // "other" probed at 1000: at 1001 the cache is stale and probing too soon
    let s = known(service.check_processor_health("other", 1001));
    assert!(!s.is_healthy);
    assert_eq!(s.error_message, Some("down".to_string()));
}

#[test]
fn test_health_check_multiple_processors() {
    let mut service = standard();
    let mut probes = 0;
    let d = check(&mut service, "default", 0, &mut probes, &|_| healthy_at(1));
    let f = check(&mut service, "fallback", 0, &mut probes, &|_| healthy_at(2));
    assert_eq!(probes, 2);
    let d2 = check(&mut service, "default", 10, &mut probes, &|_| healthy_at(3));
    let f2 = check(&mut service, "fallback", 10, &mut probes, &|_| healthy_at(4));
    assert_eq!(probes, 2);
    assert!(same(&d, &d2));
    assert!(same(&f, &f2));
}

#[test]
fn test_health_check_status_tracking() {
    let mut service = standard();
    assert!(service.get_processor_status("default", 0).is_none());
    let mut probes = 0;
    check(&mut service, "default", 0, &mut probes, &|_| healthy_at(7));
    let status = service.get_processor_status("default", 1).unwrap();
    assert!(status.is_healthy);
    assert_eq!(status.last_check, Some(7));
    assert!(service.get_processor_status("default", 300000).is_none());
}

#[test]
fn test_health_check_error_handling() {
    let service = standard();
    match service.check_processor_health("invalid-processor", 0) {
        HealthCheck::Probe(url) => {
            assert_eq!(url, "http://invalid-processor-processor:8080/payments/service-health")
        }
        HealthCheck::Known(_) => panic!("expected a probe"),
    }
    assert_eq!(service.get_health_endpoint_url(""), "http://-processor:8080/payments/service-health");
}

#[test]
fn test_health_check_configuration() {
    let mut service = standard();
    service.set_rate_limit(10000);
    assert_eq!(service.get_rate_limit(), 10000);
    service.set_cache_ttl(600000);
    assert_eq!(service.get_cache_ttl(), 600000);
}

#[test]
fn test_health_check_endpoint_url() {
    let service = standard();
    assert!(service.get_health_endpoint_url("default").contains("/payments/service-health"));
    assert_eq!(
        service.get_health_endpoint_url("fallback"),
        "http://payment-processor-fallback:8080/payments/service-health"
    );
}

#[test]
fn with_settings_uses_the_given_urls_and_intervals() {
    let service = HealthCheckService::with_settings(vec![("p".to_string(), "http://p:1".to_string())], 7, 9);
    assert_eq!(service.get_rate_limit(), 7);
    assert_eq!(service.get_cache_ttl(), 9);
    assert_eq!(service.get_health_endpoint_url("p"), "http://p:1/payments/service-health");
}

#[test]
fn probe_with_success_status_is_healthy() {
    let s = status_from_probe(ProbeOutcome::Responded { status: 204, status_text: "204 No Content".to_string() }, 15, 99);
    assert!(s.is_healthy);
    assert_eq!(s.error_message, None);
    assert_eq!(s.response_time_ms, Some(15));
    assert_eq!(s.last_check, Some(99));
}

#[test]
fn probe_with_error_status_is_unhealthy() {
    let s = status_from_probe(
        ProbeOutcome::Responded { status: 500, status_text: "500 Internal Server Error".to_string() },
        20,
        100,
    );
    assert!(!s.is_healthy);
    assert_eq!(s.error_message, Some("HTTP 500 Internal Server Error".to_string()));
}

#[test]
fn unreachable_probe_keeps_the_error_text() {
    let s = status_from_probe(ProbeOutcome::Unreachable { error: "connection refused".to_string() }, 5000, 3);
    assert!(!s.is_healthy);
    assert_eq!(s.error_message, Some("connection refused".to_string()));
    assert_eq!(s.response_time_ms, Some(5000));
}
