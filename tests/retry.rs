use std::time::Duration;
use tikv_store::retry::{
    read_options, write_options, BackoffKind, RetryPolicy, DEFAULT_MAX_ATTEMPTS,
    DEFAULT_MAX_DELAY_MS, DEFAULT_MIN_DELAY_MS,
};

#[test]
fn backoff_names_resolve() {
    assert_eq!(BackoffKind::from_name(Some("expo-jitter")), BackoffKind::NoJitter);
    assert_eq!(BackoffKind::from_name(Some("equal-jitter")), BackoffKind::EqualJitter);
    assert_eq!(BackoffKind::from_name(Some("decor-jitter")), BackoffKind::DecorrelatedJitter);
    assert_eq!(BackoffKind::from_name(Some("none")), BackoffKind::NoRetry);
    assert_eq!(BackoffKind::from_name(Some("full-jitter")), BackoffKind::FullJitter);
}

#[test]
fn absent_and_unknown_names_differ() {
    assert_eq!(BackoffKind::from_name(None), BackoffKind::DecorrelatedJitter);
    assert_eq!(BackoffKind::from_name(Some("bogus")), BackoffKind::FullJitter);
    assert_eq!(BackoffKind::from_name(Some("")), BackoffKind::FullJitter);
    assert_eq!(BackoffKind::from_name(Some("none ")), BackoffKind::FullJitter);
}

#[test]
fn settings_default_when_absent() {
    let policy = RetryPolicy::from_settings(None, None, None, None);
    assert_eq!(policy.kind, BackoffKind::DecorrelatedJitter);
    assert_eq!(policy.min_delay_ms, DEFAULT_MIN_DELAY_MS);
    assert_eq!(policy.max_delay_ms, DEFAULT_MAX_DELAY_MS);
    assert_eq!(policy.max_attempts, DEFAULT_MAX_ATTEMPTS);
    assert_eq!((policy.min_delay_ms, policy.max_delay_ms, policy.max_attempts), (500, 2000, 30));
}

#[test]
fn settings_are_kept_when_given() {
    let policy = RetryPolicy::from_settings(Some("expo-jitter"), Some(10), Some(80), Some(4));
    assert_eq!(
        policy,
        RetryPolicy {
            kind: BackoffKind::NoJitter,
            min_delay_ms: 10,
            max_delay_ms: 80,
            max_attempts: 4,
        }
    );
}

#[test]
fn buildable_delays_depend_on_kind() {
    let zero = |kind| RetryPolicy {
        kind,
        min_delay_ms: 0,
        max_delay_ms: 0,
        max_attempts: 3,
    };
    assert!(!zero(BackoffKind::FullJitter).can_build());
    assert!(!zero(BackoffKind::DecorrelatedJitter).can_build());
    assert!(!zero(BackoffKind::EqualJitter).can_build());
    assert!(zero(BackoffKind::NoJitter).can_build());
    assert!(zero(BackoffKind::NoRetry).can_build());
    let one = RetryPolicy {
        kind: BackoffKind::EqualJitter,
        min_delay_ms: 1,
        max_delay_ms: 1,
        max_attempts: 3,
    };
    assert!(!one.can_build());
    assert!(RetryPolicy { kind: BackoffKind::FullJitter, ..one }.can_build());
}

fn delays(policy: &RetryPolicy, calls: usize) -> Vec<Option<Duration>> {
    let mut backoff = policy.backoff();
    (0..calls).map(|_| backoff.next_delay_duration()).collect()
}

#[test]
fn jittered_delays_stay_in_bounds_and_stop_after_the_limit() {
    for name in ["full-jitter", "equal-jitter", "decor-jitter", "expo-jitter"] {
        let policy = RetryPolicy::from_settings(Some(name), Some(500), Some(2000), Some(30));
        let got = delays(&policy, 31);
        for (attempt, delay) in got.iter().take(30).enumerate() {
            let delay = delay.unwrap_or_else(|| panic!("{name}: attempt {attempt} refused"));
            assert!(delay <= Duration::from_millis(2000), "{name}: {delay:?}");
            if name == "decor-jitter" {
                assert!(delay >= Duration::from_millis(500), "{name}: {delay:?}");
            }
        }
        assert_eq!(got[30], None, "{name}: a 31st attempt was allowed");
    }
}

#[test]
fn exponential_delays_double_up_to_the_maximum() {
    let policy = RetryPolicy::from_settings(Some("expo-jitter"), Some(500), Some(2000), Some(4));
    let ms = |v: u64| Some(Duration::from_millis(v));
    assert_eq!(delays(&policy, 5), vec![ms(500), ms(1000), ms(2000), ms(2000), None]);
}

#[test]
fn no_retry_never_waits() {
    let policy = RetryPolicy::from_settings(Some("none"), None, None, None);
    let mut backoff = policy.backoff();
    assert!(backoff.is_none());
    assert_eq!(backoff.next_delay_duration(), None);
}

#[test]
fn absent_kind_builds_decorrelated_backoff() {
    let policy = RetryPolicy::from_settings(None, Some(500), Some(2000), Some(30));
    let expected = tikv_client::Backoff::decorrelated_jitter_backoff(500, 2000, 30);
    assert_eq!(policy.backoff(), expected);
    let unknown = RetryPolicy::from_settings(Some("other"), Some(500), Some(2000), Some(30));
    assert_eq!(
        unknown.backoff(),
        tikv_client::Backoff::full_jitter_backoff(500, 2000, 30)
    );
}

#[test]
fn templates_carry_the_backoff() {
    let backoff = tikv_client::Backoff::full_jitter_backoff(500, 2000, 30);
    let retry = tikv_client::RetryOptions::new(backoff.clone(), backoff.clone());
    let write = write_options(&backoff);
    assert!(write.is_pessimistic());
    assert_eq!(
        write,
        tikv_client::TransactionOptions::new_pessimistic()
            .drop_check(tikv_client::CheckLevel::Warn)
            .retry_options(retry.clone())
    );
    let read = read_options(&backoff);
    assert!(!read.is_pessimistic());
    assert_eq!(
        read,
        tikv_client::TransactionOptions::new_optimistic()
            .drop_check(tikv_client::CheckLevel::None)
            .retry_options(retry)
            .read_only()
    );
}
