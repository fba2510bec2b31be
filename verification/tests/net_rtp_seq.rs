use ironplayer::net::rtp_seq::{
    position, Position, RtpSeqCounters, RtpSeqState, SeqOutcome, MAX_DROPOUT, MAX_MISORDER,
};

const WINDOW: u64 = 200_000_000;

fn state() -> (RtpSeqState, u64) {
    (RtpSeqState::new(0x1A2B_3C4D), 5_000_000_000)
}

fn millis(n: u64) -> u64 {
    n * 1_000_000
}

fn secs(n: u64) -> u64 {
    millis(n * 1_000)
}

fn loss_share(c: &RtpSeqCounters) -> Option<f64> {
    c.loss_ratio().map(|(lost, expected)| lost as f64 / expected as f64)
}

#[test]
fn spec_probe_ip_019_continuous_sequence_has_no_anomalies() {
    let (mut s, t0) = state();
    for i in 0..1000u16 {
        s.observe(1000u16.wrapping_add(i), t0);
    }
    s.expire(t0 + secs(1), WINDOW);

    let c = s.counters();
    assert_eq!(c.received, 1000);
    assert_eq!(c.missing_confirmed, 0);
    assert_eq!(c.dup, 0);
    assert_eq!(c.out_of_order, 0);
    assert_eq!(c.too_old, 0);
    assert_eq!(loss_share(&c), Some(0.0));
}

#[test]
fn spec_probe_ip_021_unreconciled_gap_becomes_confirmed_loss() {
    let (mut s, t0) = state();
    s.observe(100, t0);
    assert_eq!(s.observe(102, t0), SeqOutcome::Gap { missing: 1 });

    assert_eq!(s.expire(t0 + millis(100), WINDOW), 0);
    assert_eq!(s.counters().missing_confirmed, 0);
    assert_eq!(s.counters().pending, 1);

    assert_eq!(s.expire(t0 + millis(250), WINDOW), 1);
    assert_eq!(s.counters().missing_confirmed, 1);
    assert_eq!(s.counters().pending, 0);
}

#[test]
fn spec_probe_ip_020_reorder_within_window() {
    let (mut s, t0) = state();
    s.observe(100, t0);
    s.observe(102, t0);
    assert_eq!(
        s.observe(101, t0 + millis(50)),
        SeqOutcome::Reordered
    );
    s.expire(t0 + secs(1), WINDOW);

    let c = s.counters();
    assert_eq!(c.out_of_order, 1);
    assert_eq!(c.missing_confirmed, 0);
    assert_eq!(c.received, 3);
}

#[test]
fn spec_probe_ip_023_late_arrival_is_too_old_not_negative_loss() {
    let (mut s, t0) = state();
    s.observe(100, t0);
    s.observe(102, t0);
    assert_eq!(s.expire(t0 + millis(300), WINDOW), 1);
    assert_eq!(
        s.observe(101, t0 + millis(500)),
        SeqOutcome::TooOld
    );

    let c = s.counters();
    assert_eq!(c.missing_confirmed, 1);
    assert_eq!(c.too_old, 1);
    assert_eq!(c.out_of_order, 0);
}

#[test]
fn spec_probe_ip_023_far_behind_packet_is_too_old() {
    let (mut s, t0) = state();
    for seq in 100..=300u16 {
        s.observe(seq, t0);
    }
    assert_eq!(s.observe(50, t0), SeqOutcome::TooOld);
    assert_eq!(s.counters().too_old, 1);
    assert_eq!(s.counters().missing_confirmed, 0);
}

#[test]
fn spec_probe_ip_022_duplicate_is_counted_once() {
    let (mut s, t0) = state();
    s.observe(100, t0);
    assert_eq!(s.observe(100, t0), SeqOutcome::Duplicate);
    assert_eq!(s.counters().dup, 1);
    assert_eq!(s.counters().received, 1, "duplicata não conta como recebido");

    for seq in 101..=140u16 {
        s.observe(seq, t0);
    }
    assert_eq!(s.observe(120, t0), SeqOutcome::Duplicate);
    assert_eq!(s.counters().dup, 2);
    assert_eq!(s.counters().too_old, 0);
}

#[test]
fn spec_probe_ip_019_sequence_wrap_costs_nothing() {
    let (mut s, t0) = state();
    s.observe(0xFFFE, t0);
    assert_eq!(s.observe(0xFFFF, t0), SeqOutcome::InOrder);
    assert_eq!(s.observe(0x0000, t0), SeqOutcome::InOrder);
    assert_eq!(s.observe(0x0001, t0), SeqOutcome::InOrder);
    s.expire(t0 + secs(1), WINDOW);

    let c = s.counters();
    assert_eq!(c.missing_confirmed, 0);
    assert_eq!(c.received, 4);
    assert_eq!(s.cycles(), 1, "uma volta completa");
}

#[test]
fn spec_probe_ip_020_reorder_across_the_wrap() {
    let (mut s, t0) = state();
    s.observe(0xFFFF, t0);
    assert_eq!(s.observe(0x0001, t0), SeqOutcome::Gap { missing: 1 });
    assert_eq!(
        s.observe(0x0000, t0 + millis(10)),
        SeqOutcome::Reordered
    );
    assert_eq!(s.counters().out_of_order, 1);
    assert_eq!(s.expire(t0 + secs(1), WINDOW), 0);
}

#[test]
fn spec_probe_ip_024_forward_jump_is_a_source_restart() {
    let (mut s, t0) = state();
    s.observe(100, t0);
    assert_eq!(
        s.observe(40_000, t0),
        SeqOutcome::SourceRestart {
            from: 100,
            to: 40_000
        }
    );
    s.expire(t0 + secs(1), WINDOW);

    let c = s.counters();
    assert_eq!(c.missing_confirmed, 0, "reinício não é perda");
    assert_eq!(c.source_restarts, 1);
    assert_eq!(c.received, 2);

    assert_eq!(s.observe(40_001, t0), SeqOutcome::InOrder);
}

#[test]
fn spec_probe_ip_024_backward_restart_rebases() {
    let (mut far, t0) = state();
    for seq in 5_000..5_100u16 {
        far.observe(seq, t0);
    }
    assert!(matches!(
        far.observe(0, t0),
        SeqOutcome::SourceRestart { from: 5_099, to: 0 }
    ));
    assert_eq!(far.observe(1, t0), SeqOutcome::InOrder);

    let (mut near, t0) = state();
    for seq in 1_900..2_000u16 {
        near.observe(seq, t0);
    }
    let mut restart = None;
    for seq in 500..500 + MAX_MISORDER + 5 {
        if let SeqOutcome::SourceRestart { .. } = near.observe(seq, t0) {
            restart = Some(seq);
            break;
        }
    }
    let restart = restart.expect("reinício para trás precisa rebasear");
    assert_eq!(near.counters().source_restarts, 1);
    assert!(near.counters().too_old >= u64::from(MAX_MISORDER) - 1);
    assert_eq!(near.observe(restart + 1, t0), SeqOutcome::InOrder);
}

#[test]
fn spec_probe_ip_024_position_separates_old_packets_from_restarts() {
    assert_eq!(position(100, 100), Position::Same);
    assert_eq!(position(100, 101), Position::Forward(1));
    assert_eq!(position(0xFFFF, 0x0000), Position::Forward(1));
    assert_eq!(position(300, 50), Position::Backward(250));
    assert_eq!(position(0x0000, 0xFFFF), Position::Backward(1));
    assert_eq!(position(100, 40_000), Position::FarAway);
    assert_eq!(
        position(0, MAX_DROPOUT),
        Position::Forward(u32::from(MAX_DROPOUT))
    );
    assert_eq!(position(0, MAX_DROPOUT + 1), Position::FarAway);
}

#[test]
fn spec_probe_ip_021_loss_ratio_is_over_expected_packets() {
    let (mut s, t0) = state();
    for seq in 0..999u16 {
        s.observe(seq, t0);
    }
    s.observe(1_000, t0);
    s.expire(t0 + secs(1), WINDOW);

    let c = s.counters();
    assert_eq!(c.missing_confirmed, 1);
    assert_eq!(c.received, 1_000);
    let ratio = loss_share(&c).expect("com pacotes há razão");
    assert!((ratio - 1.0 / 1001.0).abs() < 1e-9, "{ratio}");

    assert_eq!(loss_share(&RtpSeqCounters::default()), None);
}

#[test]
fn spec_probe_ip_021_burst_below_max_dropout_is_loss() {
    let (mut s, t0) = state();
    s.observe(1_000, t0);
    assert_eq!(s.observe(1_130, t0), SeqOutcome::Gap { missing: 129 });
    assert_eq!(s.expire(t0 + millis(300), WINDOW), 129);
    assert_eq!(s.counters().source_restarts, 0);
}
