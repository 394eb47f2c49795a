use sysx::recovery::{
    backoff_exponential_ms, circuit_should_open, prune_restart_window, recovery_applies,
    recovery_timer_parts, Moment,
};
use sysx::schema::{RecoveryMode, RecoveryPolicy};

fn at(secs: u64) -> Moment {
    Moment { nanos: secs * 1_000_000_000 }
}

#[test]
fn backoff_exponential() {
    assert_eq!(backoff_exponential_ms(100, 0), 100);
    assert_eq!(backoff_exponential_ms(100, 2), 400);
}

#[test]
fn circuit_open_count() {
    let now = at(5);
    let v = vec![now, now];
    assert!(circuit_should_open(&v, 2));
    assert!(!circuit_should_open(&v, 3));
}

#[test]
fn backoff_is_bounded() {
    assert_eq!(backoff_exponential_ms(1, 31), 1 << 31);
    assert_eq!(backoff_exponential_ms(1, 4_000_000_000), 1 << 31);
    assert_eq!(backoff_exponential_ms(u64::MAX, 1), u64::MAX);
    assert_eq!(backoff_exponential_ms(0, 9), 0);
    let mut last = 0;
    for attempt in 0..40 {
        let ms = backoff_exponential_ms(500, attempt);
        assert!(ms >= last);
        last = ms;
    }
}

#[test]
fn no_restarts_open_the_circuit_at_once() {
    assert!(circuit_should_open(&[], 0));
    assert!(!circuit_should_open(&[], 1));
}

#[test]
fn window_slides() {
    let mut v = vec![at(0), at(5), at(10), at(20)];
    prune_restart_window(&mut v, 10, at(15));
    assert_eq!(v, vec![at(10), at(20)]);
    let mut v = vec![Moment { nanos: 1 }];
    prune_restart_window(&mut v, 10, at(10));
    assert_eq!(v, vec![Moment { nanos: 1 }]);
    let mut v = vec![at(3)];
    prune_restart_window(&mut v, 0, at(3));
    assert!(v.is_empty());
}

#[test]
fn policies_that_recover() {
    let p = |policy| RecoveryPolicy { policy, backoff_ms: 1, max_restarts: 1, window_sec: 1 };
    assert!(recovery_applies(Some(&p(RecoveryMode::OnFailure))));
    assert!(recovery_applies(Some(&p(RecoveryMode::Always))));
    assert!(!recovery_applies(Some(&p(RecoveryMode::Manual))));
    assert!(!recovery_applies(None));
}

#[test]
fn timer_parts() {
    assert_eq!(recovery_timer_parts(0), (0, 0));
    assert_eq!(recovery_timer_parts(1999), (1, 999_000_000));
    assert_eq!(recovery_timer_parts(u64::MAX), (18_446_744_073_709_551, 615_000_000));
}
