use ironplayer::av::hw::tdr::{TdrState, TDR_MAX_ATTEMPTS, TDR_RETRY_COOLDOWN};

fn now() -> u64 {
    7_000_000_000
}

fn millis(n: u64) -> u64 {
    n * 1_000_000
}

#[test]
fn spec_av_hw_tdr_001_initial_state_is_healthy() {
    let s = TdrState::new();
    assert!(!s.is_recovering());
    assert!(!s.is_failed());
    assert_eq!(s.successful_recoveries(), 0);
    assert!(s.last_failure_reason().is_none());
    assert!(!s.should_attempt(now()));
}

#[test]
fn spec_av_hw_tdr_001_signal_allows_immediate_attempt() {
    let mut s = TdrState::new();
    s.signal_device_removed();
    assert!(s.is_recovering());
    assert!(s.should_attempt(now()));
}

#[test]
fn spec_av_hw_tdr_001_cooldown_blocks_retry() {
    let mut s = TdrState::new();
    s.signal_device_removed();
    let t0 = now();
    let bumped = s.record_failure(t0, "DXGI_ERROR_DEVICE_REMOVED");
    assert!(!bumped, "1ª falha não deve atingir TDR_MAX_ATTEMPTS");
    assert!(!s.should_attempt(t0));
    assert!(s.should_attempt(t0 + TDR_RETRY_COOLDOWN));
}

#[test]
fn spec_av_hw_tdr_001_success_resets_and_increments() {
    let mut s = TdrState::new();
    s.signal_device_removed();
    let t0 = now();
    let _ = s.record_failure(t0, "transitório");
    s.record_success(t0 + TDR_RETRY_COOLDOWN);
    assert!(!s.is_recovering());
    assert!(!s.is_failed());
    assert_eq!(s.successful_recoveries(), 1);
    assert!(s.last_failure_reason().is_none());
}

#[test]
fn spec_av_hw_tdr_001_max_attempts_transitions_to_failed() {
    let mut s = TdrState::new();
    s.signal_device_removed();
    let mut t = now();
    let mut bumped = false;
    for _ in 0..TDR_MAX_ATTEMPTS {
        bumped = s.record_failure(t, "persistente");
        t += TDR_RETRY_COOLDOWN;
    }
    assert!(bumped, "a última tentativa deve sinalizar fallback");
    assert!(s.is_failed());
    assert!(!s.should_attempt(t + TDR_RETRY_COOLDOWN * 10));
    assert_eq!(s.last_failure_reason(), Some("persistente"));
}

#[test]
fn spec_av_hw_tdr_001_failed_is_terminal() {
    let mut s = TdrState::new();
    s.signal_device_removed();
    let mut t = now();
    for _ in 0..TDR_MAX_ATTEMPTS {
        let _ = s.record_failure(t, "x");
        t += TDR_RETRY_COOLDOWN;
    }
    assert!(s.is_failed());
    s.signal_device_removed();
    assert!(s.is_failed(), "signal não deve sair de Failed");
    assert!(s.record_failure(t, "y"));
    assert!(s.is_failed());
}

#[test]
fn spec_av_hw_tdr_001_successful_recoveries_accumulate() {
    let mut s = TdrState::new();
    let t0 = now();
    for i in 1..=3 {
        s.signal_device_removed();
        s.record_success(t0 + millis(i * 100));
    }
    assert_eq!(s.successful_recoveries(), 3);
    assert!(!s.is_recovering());
}
