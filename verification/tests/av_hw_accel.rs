use ironplayer::av::hw::hwaccel_mode::{HwAccelMode, HwAccelState};

#[test]
fn spec_av_hw_dec_001_initial_state_is_cpu() {
    let s = HwAccelState::new();
    assert!(!s.is_active());
    assert_eq!(s.consecutive_failures(), 0);
    assert!(s.fallback_reason().is_none());
}

#[test]
fn spec_av_hw_dec_001_activate_resets() {
    let mut s = HwAccelState::new();
    let _ = s.record_failure();
    s.fallback("teste");
    s.activate();
    assert!(s.is_active());
    assert_eq!(s.consecutive_failures(), 0);
    assert!(s.fallback_reason().is_none());
}

#[test]
fn spec_av_hw_dec_001_three_failures_trigger_fallback() {
    let mut s = HwAccelState::new();
    s.activate();
    assert!(!s.record_failure(), "1ª falha não deve disparar fallback");
    assert!(!s.record_failure(), "2ª falha não deve disparar fallback");
    assert!(s.record_failure(), "3ª falha deve disparar fallback");
}

#[test]
fn spec_av_hw_dec_001_success_resets_failure_streak() {
    let mut s = HwAccelState::new();
    s.activate();
    let _ = s.record_failure();
    let _ = s.record_failure();
    s.record_success();
    assert_eq!(s.consecutive_failures(), 0);
    assert!(!s.record_failure(), "contador deve ter sido resetado");
}

#[test]
fn spec_av_hw_dec_001_fallback_persists_first_reason() {
    let mut s = HwAccelState::new();
    s.activate();
    s.fallback("driver ausente");
    s.fallback("outra causa");
    assert!(!s.is_active());
    assert_eq!(s.fallback_reason(), Some("driver ausente"));
}

#[test]
fn spec_av_hw_dec_001_hwaccel_mode_off() {
    let m = HwAccelMode::Off;
    assert!(!m.is_gpu());
    assert_eq!(m.label(), "off");
}
