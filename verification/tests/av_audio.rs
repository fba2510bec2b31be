use ironplayer::av::audio::{sanitize_buffer_ms, AudioPlaybackState, AudioRingBuffer};

fn level(buf: &AudioRingBuffer<f32>) -> f32 {
    let (filled, capacity) = buf.level();
    filled as f32 / capacity as f32
}

#[test]
fn spec_av_004_ring_buffer_push_pop_fifo() {
    let mut buf = AudioRingBuffer::new(8, 0.0f32);
    assert!(buf.push(&[0.1, 0.2, 0.3, 0.4]));
    let mut out = [0.0f32; 4];
    buf.pop(&mut out);
    assert_eq!(out, [0.1, 0.2, 0.3, 0.4]);
}

#[test]
fn spec_av_004_ring_buffer_pop_empty_returns_silence() {
    let mut buf = AudioRingBuffer::new(8, 0.0f32);
    let mut out = [1.0f32; 4];
    buf.pop(&mut out);
    assert_eq!(out, [0.0f32; 4]);
}

#[test]
fn spec_av_004_buffer_level_starts_at_zero() {
    let buf = AudioRingBuffer::new(100, 0.0f32);
    assert_eq!(level(&buf), 0.0);
}

#[test]
fn spec_av_004_buffer_level_capped_at_one() {
    let mut buf = AudioRingBuffer::new(4, 0.0f32);
    let _ = buf.push(&[0.0f32; 8]);
    assert!(
        level(&buf) <= 1.0,
        "buffer_level={} deve ser ≤ 1.0",
        level(&buf)
    );
}

#[test]
fn spec_av_004_drop_frames_when_buffer_exceeds_2x_capacity() {
    let mut buf = AudioRingBuffer::new(4, 0.0f32);

    assert!(!buf.push(&[1.0, 2.0, 3.0, 4.0, 5.0, 6.0, 7.0, 8.0, 9.0]));
    assert_eq!(buf.len(), 4, "buffer deve voltar para a capacidade nominal");

    let mut out = [0.0f32; 4];
    buf.pop(&mut out);
    assert_eq!(out, [6.0, 7.0, 8.0, 9.0]);
}

#[test]
fn spec_av_004_buffer_level_full_is_one() {
    let mut buf = AudioRingBuffer::new(4, 0.0f32);
    let _ = buf.push(&[0.5f32; 4]);
    assert_eq!(level(&buf), 1.0);
}

#[test]
fn spec_av_004c_av_sync_deviation_under_40ms() {
    let sample_rate: u32 = 48_000;
    let channels: u16 = 2;
    let samples_per_ms: usize = (sample_rate as usize * channels as usize) / 1000;
    let max_deviation_ticks: u64 = 40 * 90_000 / 1000;

    let mut buf = AudioRingBuffer::new(samples_per_ms * 200, 0.0f32);

    let pts_frame1: u64 = 0;
    let frame1_samples = vec![0.3f32; samples_per_ms * 20];
    buf.push(&frame1_samples);

    let pts_frame2: u64 = 20 * 90_000 / 1000;
    let frame2_samples = vec![0.3f32; samples_per_ms * 20];
    buf.push(&frame2_samples);

    let consumed_1 = samples_per_ms * 10;
    let mut out = vec![0.0f32; consumed_1];
    buf.pop(&mut out);

    let audio_pts_ticks =
        pts_frame1 + (consumed_1 as u64 * 90_000) / (sample_rate as u64 * channels as u64);

    let expected_ticks: u64 = 10 * 90_000 / 1000;

    let deviation = audio_pts_ticks.abs_diff(expected_ticks);
    assert!(
        deviation <= max_deviation_ticks,
        "desvio A/V = {deviation} ticks ({} ms) excede o limite de 40 ms",
        deviation * 1000 / 90_000
    );

    let consumed_2 = samples_per_ms * 25;
    let mut out2 = vec![0.0f32; consumed_2];
    buf.pop(&mut out2);

    let total_consumed = consumed_1 + consumed_2;
    let audio_pts_ticks2 =
        pts_frame1 + (total_consumed as u64 * 90_000) / (sample_rate as u64 * channels as u64);

    let deviation2 = audio_pts_ticks2.abs_diff(pts_frame2);
    assert!(
        deviation2 <= max_deviation_ticks,
        "desvio A/V 2ª etapa = {deviation2} ticks ({} ms) excede o limite de 40 ms",
        deviation2 * 1000 / 90_000
    );
}

#[test]
fn spec_av_004c_buffer_level_proportional() {
    let mut buf = AudioRingBuffer::new(100, 0.0f32);
    assert_eq!(level(&buf), 0.0);
    let _ = buf.push(&[0.0f32; 50]);
    let level_50 = level(&buf);
    assert!(
        (level_50 - 0.5).abs() < 1e-5,
        "nível com 50/100 amostras deveria ser 0.5, obtido {level_50}"
    );
    let _ = buf.push(&[0.0f32; 50]);
    assert_eq!(level(&buf), 1.0);
}

#[test]
fn spec_av_004c_playback_waits_for_prefill_before_starting() {
    let mut state = AudioPlaybackState::new(8, 2, 0.0f32);
    let dropped = state.push_samples(&[0.1, 0.2, 0.3]);
    assert_eq!(dropped, 0);

    let mut out = [1.0f32; 4];
    let report = state.pop_for_output(&mut out);
    assert_eq!(report.copied_samples, 0);
    assert_eq!(report.missing_samples, 4);
    assert_eq!(out, [0.0; 4]);

    let dropped = state.push_samples(&[0.4, 0.5, 0.6, 0.7, 0.8]);
    assert_eq!(dropped, 0);

    let report = state.pop_for_output(&mut out);
    assert_eq!(report.copied_samples, 4);
    assert_eq!(report.missing_samples, 0);
    assert_eq!(out, [0.1, 0.2, 0.3, 0.4]);
}

#[test]
fn spec_av_004c_underrun_resets_primed_state() {
    let mut state = AudioPlaybackState::new(8, 2, 0.0f32);
    let _ = state.push_samples(&[0.1, 0.2, 0.3, 0.4]);

    let mut out = [0.0f32; 4];
    let started = state.pop_for_output(&mut out);
    assert_eq!(started.missing_samples, 0);
    assert!(state.primed);

    let mut out2 = [0.0f32; 4];
    let underrun = state.pop_for_output(&mut out2);
    assert_eq!(underrun.copied_samples, 0);
    assert_eq!(underrun.missing_samples, 4);
    assert!(!state.primed);
}

#[test]
fn spec_av_004_supported_buffer_sizes_are_enforced() {
    assert_eq!(sanitize_buffer_ms(50), 50);
    assert_eq!(sanitize_buffer_ms(100), 100);
    assert_eq!(sanitize_buffer_ms(200), 200);
    assert_eq!(sanitize_buffer_ms(500), 500);
    assert_eq!(sanitize_buffer_ms(75), 100);
}
