use std::sync::atomic::Ordering;

use ironplayer::av::clock::{AudioClockHandle, Clock, MasterClock, Pts90, WallClockHandle};

#[test]
fn spec_av_clock_002_audio_clock_zero_samples_returns_anchor() {
    let clock = AudioClockHandle::new(48_000, 2, 900_000);
    assert_eq!(clock.now_pts90(), 900_000);
}

#[test]
fn spec_av_clock_002_audio_clock_one_second_offset() {
    let clock = AudioClockHandle::new(48_000, 2, 0);
    clock.samples_played.store(48_000 * 2, Ordering::Relaxed);
    assert_eq!(clock.now_pts90(), 90_000);
}

#[test]
fn spec_av_clock_002_audio_clock_nonzero_anchor() {
    let anchor: Pts90 = 270_000;
    let clock = AudioClockHandle::new(48_000, 2, anchor);
    clock.samples_played.store(48_000 * 2, Ordering::Relaxed);
    assert_eq!(clock.now_pts90(), anchor + 90_000);
}

#[test]
fn spec_av_clock_002_audio_clock_reset_zeros_counter_and_sets_anchor() {
    let clock = AudioClockHandle::new(48_000, 2, 0);
    clock
        .samples_played
        .store(48_000 * 2 * 5, Ordering::Relaxed);
    clock.reset(180_000);
    assert_eq!(clock.samples_played.load(Ordering::Relaxed), 0);
    assert_eq!(clock.now_pts90(), 180_000);
}

#[test]
fn spec_av_clock_002_samples_counter_arc_shared() {
    let clock = AudioClockHandle::new(48_000, 1, 0);
    let counter = clock.samples_counter();
    counter.fetch_add(48_000, Ordering::Relaxed);
    assert_eq!(clock.now_pts90(), 90_000);
}

#[test]
fn spec_av_clock_002_audio_clock_zero_channels_safe() {
    let clock = AudioClockHandle::new(48_000, 0, 12345);
    clock.samples_played.store(99_999, Ordering::Relaxed);
    assert_eq!(clock.now_pts90(), 12345);
}

#[test]
fn spec_av_clock_002_audio_clock_zero_sample_rate_safe() {
    let clock = AudioClockHandle::new(0, 2, 12345);
    clock.samples_played.store(99_999, Ordering::Relaxed);
    assert_eq!(clock.now_pts90(), 12345);
}

#[test]
fn spec_av_clock_003_wall_clock_starts_near_anchor() {
    let anchor: Pts90 = 900_000;
    let clock = WallClockHandle::new(anchor);
    let pts = clock.now_pts90();
    assert!(
        pts >= anchor && pts < anchor + 90_000,
        "pts={pts} âncora={anchor}"
    );
}

#[test]
fn spec_av_clock_001_master_clock_audio_delegates() {
    let mc = MasterClock::audio(48_000, 2, 0);
    if let Some(h) = mc.audio_handle() {
        h.samples_played.store(48_000 * 2, Ordering::Relaxed);
    }
    assert_eq!(mc.now_pts90(), 90_000);
}

#[test]
fn spec_av_clock_001_master_clock_wall_delegates() {
    let mc = MasterClock::wall(270_000);
    let pts = mc.now_pts90();
    assert!(pts >= 270_000 && pts < 270_000 + 90_000);
}

#[test]
fn spec_av_clock_001_audio_handle_some_and_none() {
    let audio = MasterClock::audio(48_000, 2, 0);
    assert!(audio.audio_handle().is_some());
    let wall = MasterClock::wall(0);
    assert!(wall.audio_handle().is_none());
}

#[test]
fn spec_av_clock_001_master_clock_reset_delegates() {
    let mc = MasterClock::audio(48_000, 2, 0);
    if let Some(h) = mc.audio_handle() {
        h.samples_played.store(48_000 * 2 * 10, Ordering::Relaxed);
    }
    mc.reset(999_000);
    assert_eq!(mc.now_pts90(), 999_000);
}
