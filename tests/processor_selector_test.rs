use rinha::selector::{
    classify_response, AttemptOutcome, DispatchError, DispatchStep, PaymentProcessorResponse,
    ProcessorInfo, ProcessorSelector, DEFAULT_RATE,
};

fn standard() -> ProcessorSelector {
    ProcessorSelector::new(
        "http://payment-processor-default:8080".to_string(),
        "http://payment-processor-fallback:8080".to_string(),
    )
}

fn info<'a>(s: &'a [ProcessorInfo], name: &str) -> &'a ProcessorInfo {
    s.iter().find(|p| p.name == name).unwrap()
}

fn ok(message: &str) -> AttemptOutcome {
    AttemptOutcome::Accepted(PaymentProcessorResponse { message: message.to_string() })
}

/// Runs one payment, answering each attempt with what `backend` says for the
/// target's name; returns the result and the names tried, in order.
fn run(
    selector: &mut ProcessorSelector,
    backend: &dyn Fn(&str) -> AttemptOutcome,
) -> (Result<String, DispatchError>, Vec<String>) {
    let (mut plan, mut step) = selector.begin_payment();
    let mut tried = Vec::new();
    loop {
        match step {
            DispatchStep::Attempt(target) => {
                tried.push(target.name.clone());
                assert!(plan.is_pending());
                step = selector.record_attempt(&mut plan, backend(&target.name));
            }
            DispatchStep::Succeeded(resp) => return (Ok(resp.message), tried),
            DispatchStep::Failed(e) => return (Err(e), tried),
        }
    }
}

#[test]
fn test_processor_selector_creation() {
    let selector = standard();
    assert_eq!(selector.get_processors().len(), 2);
    assert!(selector.get_default_processor().is_some());
}

#[test]
fn test_t13_1_processor_selector_integration() {
    let selector = standard();
    assert!(!selector.get_processors().is_empty());
    assert!(!selector.get_processor_rates().is_empty());
    assert!(selector.get_default_processor().is_some());
}

#[test]
fn test_processor_rate_tracking() {
    let mut selector = standard();
    for _ in 0..10 {
        let _ = run(&mut selector, &|_| AttemptOutcome::Unreachable);
    }
    let rates = selector.get_processor_rates();
    assert!(rates.len() > 0);
    for (_, rate) in rates {
        assert_eq!(rate, DEFAULT_RATE);
    }
}

#[test]
fn test_lowest_rate_selection() {
    let mut selector = standard();
    selector.update_processor_rate("default", 50000);
    selector.update_processor_rate("fallback", 30000);
    assert_eq!(selector.get_default_processor().unwrap().name, "fallback");
}

#[test]
fn equal_rates_choose_the_first_stored() {
    let selector = standard();
    assert_eq!(selector.get_default_processor().unwrap().name, "default");
}

#[test]
fn unhealthy_processors_are_not_chosen() {
    let mut selector = standard();
    selector.update_processor_rate("fallback", 10);
    selector.mark_processor_failed("fallback");
    assert_eq!(selector.get_default_processor().unwrap().name, "default");
    selector.mark_processor_failed("default");
    assert!(selector.get_default_processor().is_none());
}

#[test]
fn test_automatic_fallback_on_failure() {
    let config = vec![
        ("default".to_string(), "http://mock/default".to_string()),
        ("fallback".to_string(), "http://mock/fallback".to_string()),
    ];
    let mut selector = ProcessorSelector::with_config(config);
    selector.update_processor_rate("default", 10000);
    selector.update_processor_rate("fallback", 20000);
    selector.mark_processor_healthy("default");
    selector.mark_processor_healthy("fallback");
    let (result, tried) = run(&mut selector, &|name| {
        if name == "default" { AttemptOutcome::Rejected(500) } else { ok("ok") }
    });
    assert!(result.is_ok());
    assert_eq!(tried, vec!["default".to_string(), "fallback".to_string()]);
}

#[test]
fn end_to_end_lowest_rate_goes_first() {
    let mut selector = standard();
    selector.update_processor_rate("default", 50000);
    selector.update_processor_rate("fallback", 30000);
    let (result, tried) = run(&mut selector, &|name| {
        if name == "default" { AttemptOutcome::Rejected(500) } else { ok("ok") }
    });
    assert_eq!(result, Ok("ok".to_string()));
    assert_eq!(tried, vec!["fallback".to_string()]);
    let ps = selector.get_processors();
    assert!(info(&ps, "fallback").is_healthy);
    assert!(info(&ps, "default").is_healthy);
    assert_eq!(info(&ps, "default").failure_count, 0);
}

#[test]
fn end_to_end_failed_default_then_fallback() {
    let mut selector = standard();
    let (result, tried) = run(&mut selector, &|name| {
        if name == "default" { AttemptOutcome::Rejected(500) } else { ok("ok") }
    });
    assert_eq!(result, Ok("ok".to_string()));
    assert_eq!(tried, vec!["default".to_string(), "fallback".to_string()]);
    let ps = selector.get_processors();
    assert!(!info(&ps, "default").is_healthy);
    assert_eq!(info(&ps, "default").failure_count, 1);
    assert!(info(&ps, "fallback").is_healthy);
}

#[test]
fn every_healthy_processor_is_tried_before_giving_up() {
    let config = vec![
        ("a".to_string(), "http://a".to_string()),
        ("b".to_string(), "http://b".to_string()),
        ("c".to_string(), "http://c".to_string()),
    ];
    let mut selector = ProcessorSelector::with_config(config);
    selector.update_processor_rate("c", 100);
    selector.mark_processor_failed("b");
    let (result, tried) = run(&mut selector, &|_| AttemptOutcome::Unreachable);
    assert_eq!(result, Err(DispatchError::AllProcessorsUnavailable));
    assert_eq!(tried, vec!["c".to_string(), "a".to_string()]);
    let ps = selector.get_processors();
    assert_eq!(info(&ps, "a").failure_count, 1);
    assert_eq!(info(&ps, "b").failure_count, 1);
    assert_eq!(info(&ps, "c").failure_count, 1);
}

#[test]
fn with_no_healthy_processor_every_one_is_tried() {
    let mut selector = standard();
    selector.mark_processor_failed("default");
    selector.mark_processor_failed("fallback");
    let (result, tried) = run(&mut selector, &|name| {
        if name == "fallback" { ok("late") } else { AttemptOutcome::Unreadable }
    });
    assert_eq!(result, Ok("late".to_string()));
    assert_eq!(tried, vec!["default".to_string(), "fallback".to_string()]);
    let ps = selector.get_processors();
    assert_eq!(info(&ps, "default").failure_count, 2);
    assert!(info(&ps, "fallback").is_healthy);
    assert_eq!(info(&ps, "fallback").failure_count, 0);
}

#[test]
fn empty_registry_fails_at_once() {
    let selector = ProcessorSelector::with_config(Vec::new());
    let (plan, step) = selector.begin_payment();
    assert!(!plan.is_pending());
    assert!(matches!(step, DispatchStep::Failed(DispatchError::AllProcessorsUnavailable)));
}

#[test]
fn test_processor_health_tracking() {
    let mut selector = standard();
    assert!(selector.is_processor_healthy("default"));
    assert!(selector.is_processor_healthy("fallback"));
    selector.mark_processor_failed("default");
    assert!(!selector.is_processor_healthy("default"));
    assert!(selector.is_processor_healthy("fallback"));
}

#[test]
fn test_processor_recovery() {
    let mut selector = standard();
    selector.mark_processor_failed("default");
    assert!(!selector.is_processor_healthy("default"));
    selector.mark_processor_healthy("default");
    assert!(selector.is_processor_healthy("default"));
    let ps = selector.get_processors();
    assert_eq!(info(&ps, "default").failure_count, 0);
}

#[test]
fn unknown_processor_is_not_healthy() {
    let mut selector = standard();
    assert!(!selector.is_processor_healthy("other"));
    selector.mark_processor_healthy("other");
    assert!(!selector.is_processor_healthy("other"));
    assert_eq!(selector.get_processors().len(), 2);
}

#[test]
fn test_concurrent_processor_access() {
    let mut selector = standard();
    for _ in 0..10 {
        let (result, _) = run(&mut selector, &|_| ok("ok"));
        assert!(result.is_ok());
    }
}

#[test]
fn test_processor_info_structure() {
    let info = ProcessorInfo {
        name: "test".to_string(),
        url: "http://test:8080".to_string(),
        rate: 50000,
        is_healthy: true,
        failure_count: 0,
    };
    assert_eq!(info.name, "test");
    assert_eq!(info.url, "http://test:8080");
    assert_eq!(info.rate, 50000);
    assert!(info.is_healthy);
    assert_eq!(info.failure_count, 0);
}

#[test]
fn test_processor_selector_configuration() {
    let config = vec![
        ("default".to_string(), "http://payment-processor-default:8080".to_string()),
        ("fallback".to_string(), "http://payment-processor-fallback:8080".to_string()),
    ];
    let selector = ProcessorSelector::with_config(config);
    let processors = selector.get_processors();
    assert_eq!(processors.len(), 2);
    assert!(processors.iter().any(|p| p.name == "default"));
    assert!(processors.iter().any(|p| p.name == "fallback"));
    assert_eq!(info(&processors, "fallback").url, "http://payment-processor-fallback:8080");
    assert_eq!(info(&processors, "default").rate, DEFAULT_RATE);
}

#[test]
fn rates_are_listed_in_stored_order() {
    let mut selector = standard();
    selector.update_processor_rate("fallback", 123);
    let rates = selector.get_processor_rates();
    assert_eq!(rates, vec![("default".to_string(), DEFAULT_RATE), ("fallback".to_string(), 123)]);
}

#[test]
fn classify_response_needs_success_and_body() {
    let body = PaymentProcessorResponse { message: "ok".to_string() };
    match classify_response(200, Some(body.clone())) {
        AttemptOutcome::Accepted(r) => assert_eq!(r.message, "ok"),
        other => panic!("unexpected {:?}", other),
    }
    assert!(matches!(classify_response(204, None), AttemptOutcome::Unreadable));
    assert!(matches!(classify_response(500, Some(body.clone())), AttemptOutcome::Rejected(500)));
    assert!(matches!(classify_response(199, Some(body.clone())), AttemptOutcome::Rejected(199)));
    assert!(matches!(classify_response(300, Some(body)), AttemptOutcome::Rejected(300)));
}
