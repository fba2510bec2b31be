use ironplayer::net::timing::{
    CalibrationStep, IatWindow, LogHistogram, NoiseCalibration, Rfc3550Jitter, HIST_BUCKETS,
};

#[test]
fn ranks_are_found_in_their_buckets() {
    let mut h = LogHistogram::new();
    assert_eq!(h.count(), 0);
    assert_eq!(h.buckets().len(), 64);
    for _ in 0..985 {
        h.record(29);
    }
    for _ in 0..15 {
        h.record(42);
    }
    assert_eq!(h.count(), 1_000);
    assert_eq!(h.buckets()[29], 985);
    assert_eq!(h.bucket_at_rank(0), 0);
    assert_eq!(h.bucket_at_rank(1), 29);
    assert_eq!(h.bucket_at_rank(500), 29);
    assert_eq!(h.bucket_at_rank(985), 29);
    assert_eq!(h.bucket_at_rank(986), 42);
    assert_eq!(h.bucket_at_rank(990), 42);
    assert_eq!(h.bucket_at_rank(1_001), HIST_BUCKETS - 1);
    h.reset();
    assert_eq!(h.count(), 0);
    assert_eq!(h.buckets(), LogHistogram::default().buckets());
}

#[test]
fn four_arrivals_have_three_gaps() {
    let mut w = IatWindow::new();
    let gaps: Vec<Option<u64>> =
        [1_000u64, 1_700, 1_700, 900].iter().map(|at| w.observe(*at)).collect();
    assert_eq!(gaps, vec![None, Some(700), Some(0), Some(0)]);
    assert_eq!(w.last, Some(900));
}

#[test]
fn spec_probe_ip_025_iat_window_measures_gaps_not_arrivals() {
    let t0 = 9_000_000_000u64;
    let mut w = IatWindow::new();
    let mut gaps_us: Vec<f64> = Vec::new();
    let mut hist = LogHistogram::new();
    for i in 0..4u32 {
        if let Some(gap) = w.observe(t0 + u64::from(i) * 700_000) {
            gaps_us.push(gap as f64 / 1e3);
            hist.record(30);
        }
    }
    assert_eq!(gaps_us.len(), 3);
    assert_eq!(hist.count(), 3);
    let avg_us = gaps_us.iter().sum::<f64>() / 3.0;
    assert!((avg_us - 700.0).abs() < 1.0);
    let sd_us = (gaps_us.iter().map(|us| (us - avg_us).powi(2)).sum::<f64>() / 2.0).sqrt();
    assert!(sd_us < 1.0);

    hist.reset();
    assert_eq!(hist.count(), 0);
    assert_eq!(w.observe(t0 + 4 * 700_000), Some(700_000));
}

#[test]
fn spec_probe_ip_028_constant_timestamp_marks_jitter_not_applicable() {
    let t0 = 9_000_000_000u64;
    let mut j = Rfc3550Jitter::new();
    for i in 0..10u64 {
        j.observe(0, t0 + i * 700_000);
    }
    assert!(!j.usable());
}

#[test]
fn constant_timestamps_are_of_no_use() {
    let mut j = Rfc3550Jitter::new();
    for i in 0..10u64 {
        assert_eq!(j.observe(0, 5_000 + i * 700), (i * 700, i > 0));
    }
    assert!(!j.usable());
    assert_eq!(j.samples, 9);
}

#[test]
fn varying_timestamps_are_of_use_until_they_go_back() {
    let mut j = Rfc3550Jitter::new();
    j.observe(0xFFFF_FFF0, 0);
    assert!(!j.usable());
    j.observe(0x10, 1);
    assert!(j.usable());
    j.observe(0x0F, 2);
    assert!(!j.usable());
    j.observe(0x20, 3);
    assert!(!j.usable());
    j.reset();
    assert_eq!(j, Rfc3550Jitter::new());
}

#[test]
fn calibration_closes_after_its_window() {
    let mut c = NoiseCalibration::new(1_000);
    assert_eq!(c.observe(50), CalibrationStep::Taken);
    assert_eq!(c.observe(1_049), CalibrationStep::Taken);
    assert_eq!(c.observe(1_050), CalibrationStep::Closing);
    assert_eq!(c.observe(1_051), CalibrationStep::Ignored);
    assert!(c.closed);
    assert_eq!(NoiseCalibration::new(0).observe(7), CalibrationStep::Closing);
}

#[test]
fn meters_start_empty_by_default() {
    let mut window = IatWindow::default();
    assert_eq!(window.observe(1_000), None);
    assert_eq!(window.observe(1_500), Some(500));
    let mut jitter = Rfc3550Jitter::default();
    let mut made = Rfc3550Jitter::new();
    assert_eq!(jitter.usable(), made.usable());
    assert_eq!(jitter.observe(90_000, 0), made.observe(90_000, 0));
    assert_eq!(jitter.observe(99_000, 50), made.observe(99_000, 50));
}
