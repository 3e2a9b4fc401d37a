use heartbeat::retry::{
    delay_before_attempt_ms, evaluate_sink_response, run_retry_schedule, DeliveryError,
};

#[test]
fn delays_follow_the_fixed_schedule() {
    assert_eq!(delay_before_attempt_ms(0), Some(0));
    assert_eq!(delay_before_attempt_ms(1), Some(500));
    assert_eq!(delay_before_attempt_ms(2), Some(2000));
    assert_eq!(delay_before_attempt_ms(3), Some(5000));
    assert_eq!(delay_before_attempt_ms(4), None);
}

#[test]
fn fails_twice_then_succeeds_makes_three_attempts() {
    let outcomes = vec![false, false, true, true];
    let trace = run_retry_schedule(&outcomes);
    assert!(trace.delivered);
    assert_eq!(trace.attempts, 3);
    assert_eq!(trace.delays_ms, vec![0, 500, 2000]);
}

#[test]
fn always_failing_sink_gets_four_attempts() {
    let outcomes = vec![false, false, false, false];
    let trace = run_retry_schedule(&outcomes);
    assert!(!trace.delivered);
    assert_eq!(trace.attempts, 4);
    assert_eq!(trace.delays_ms, vec![0, 500, 2000, 5000]);
}

#[test]
fn first_attempt_success_needs_no_delay() {
    let outcomes = vec![true, false, false, false];
    let trace = run_retry_schedule(&outcomes);
    assert!(trace.delivered);
    assert_eq!(trace.attempts, 1);
    assert_eq!(trace.delays_ms, vec![0]);
}

#[test]
fn sink_response_judgement() {
    assert!(evaluate_sink_response(true, "200 OK", None).is_ok());
    match evaluate_sink_response(false, "400 Bad Request", Some("can't parse entities".to_string()))
    {
        Err(DeliveryError::Rejected(d)) => {
            assert_eq!(d, "status=400 Bad Request, description=can't parse entities".to_string());
        }
        other => panic!("expected Rejected, got {:?}", other),
    }
    match evaluate_sink_response(false, "502 Bad Gateway", None) {
        Err(DeliveryError::Rejected(d)) => {
            assert_eq!(d, "status=502 Bad Gateway, description=".to_string());
        }
        other => panic!("expected Rejected, got {:?}", other),
    }
}
