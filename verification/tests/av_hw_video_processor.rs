use ironplayer::av::hw::video_processor::vp_output_pts;

#[test]
fn spec_av_006_vp_output_pts_bob_halves_timebase() {
    let field_pts = 90_000i64;
    let half = 1800i64;
    let first = vp_output_pts(field_pts, 0, half);
    let second = vp_output_pts(field_pts, 1, half);
    assert_eq!(first, field_pts);
    assert_eq!(second, field_pts + half);
}

#[test]
fn spec_av_006_vp_output_pts_monotonic_across_frames() {
    let p0 = 100_000i64;
    let p1 = p0 + 3600;
    let p2 = p1 + 3600;
    let seq = [vp_output_pts(p0, 0, 1800), vp_output_pts(p1, 0, 1800), vp_output_pts(p2, 0, 1800)];
    for w in seq.windows(2) {
        assert!(w[1] > w[0], "PTS deve ser estritamente crescente: {:?}", seq);
    }
}

#[test]
fn spec_av_006_vp_output_pts_nopreserves() {
    assert_eq!(vp_output_pts(i64::MIN, 0, 1800), i64::MIN);
}
