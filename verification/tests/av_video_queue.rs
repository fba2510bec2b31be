use ironplayer::av::clock::Pts90;
use ironplayer::av::video_queue::{
    PopResult, PushResult, VideoFrame, VideoQueue, YuvColorRange, YuvColorspace, YuvFrame,
    DROP_PTS, HOLD_PTS,
};

fn make_frame(pts: Option<u64>) -> VideoFrame {
    let y = vec![0u8; 4 * 4];
    let uv = vec![0u8; 2 * 2];
    VideoFrame::Sw(YuvFrame {
        planes: [y, uv.clone(), uv],
        width: 4,
        height: 4,
        pts,
        sar_num: 1,
        sar_den: 1,
        colorspace: YuvColorspace::Bt709,
        color_range: YuvColorRange::Limited,
        ten_bit: false,
    })
}

fn make_clock_pts(pts: Pts90) -> Pts90 {
    pts
}

#[test]
fn spec_av_vq_001_push_single_frame() {
    let mut q = VideoQueue::new(4);
    let r = q.push(make_frame(Some(1000)));
    assert_eq!(r, PushResult::Inserted);
    assert_eq!(q.len(), 1);
}

#[test]
fn spec_av_vq_001_push_no_pts_uses_synthetic() {
    let mut q = VideoQueue::new(4);
    let r = q.push(make_frame(None));
    assert_eq!(r, PushResult::Inserted);
    assert_eq!(q.len(), 1);
}

#[test]
fn spec_av_vq_001_push_out_of_order_reordered() {
    let mut q = VideoQueue::new(4);
    q.push(make_frame(Some(3000)));
    q.push(make_frame(Some(1000)));
    q.push(make_frame(Some(2000)));

    let mut pts_list = Vec::new();
    for clock in [1000i64, 2000, 3000] {
        match q.pop_ready(clock) {
            PopResult::Ready(f) => pts_list.push(f.pts().unwrap()),
            other => panic!("esperava Ready no clock {clock}, obteve {:?}", other),
        }
    }
    assert_eq!(pts_list, vec![1000u64, 2000, 3000]);
}

#[test]
fn spec_av_vq_001_push_at_capacity_drops_oldest() {
    let mut q = VideoQueue::new(2);
    q.push(make_frame(Some(100)));
    q.push(make_frame(Some(200)));
    let r = q.push(make_frame(Some(300)));
    assert_eq!(r, PushResult::DroppedOldest);
    assert_eq!(q.len(), 2);
}

#[test]
fn spec_av_vq_001_pop_empty_queue() {
    let mut q = VideoQueue::new(4);
    assert!(matches!(q.pop_ready(0), PopResult::Empty));
}

#[test]
fn spec_av_vq_001_pop_ready_exact_pts() {
    let mut q = VideoQueue::new(4);
    q.push(make_frame(Some(9000)));
    let clock = make_clock_pts(9000);
    assert!(matches!(q.pop_ready(clock), PopResult::Ready(_)));
}

#[test]
fn spec_av_vq_001_pop_ready_within_window() {
    let mut q = VideoQueue::new(4);
    q.push(make_frame(Some(9000)));
    assert!(matches!(q.pop_ready(9500), PopResult::Ready(_)));
}

#[test]
fn spec_av_vq_001_pop_too_early() {
    let mut q = VideoQueue::new(4);
    q.push(make_frame(Some(10_000)));
    let clock = make_clock_pts(10_000 - HOLD_PTS - 1);
    assert!(matches!(q.pop_ready(clock), PopResult::TooEarly));
    assert_eq!(q.held_early, 1);
    assert_eq!(q.len(), 1);
}

#[test]
fn spec_av_vq_001_pop_drop_late() {
    let mut q = VideoQueue::new(4);
    q.push(make_frame(Some(100)));
    let clock = make_clock_pts(100 + DROP_PTS + 1);
    assert!(matches!(q.pop_ready(clock), PopResult::Empty));
    assert_eq!(q.dropped_late, 1);
    assert_eq!(q.len(), 0);
}

#[test]
fn spec_av_vq_001_pop_multiple_late_then_ready() {
    let mut q = VideoQueue::new(8);
    for pts in [100u64, 200, 300, 9_500] {
        q.push(make_frame(Some(pts)));
    }
    let clock = make_clock_pts(9_000 + DROP_PTS);
    let result = q.pop_ready(clock);
    assert!(
        matches!(result, PopResult::Ready(_)),
        "esperava Ready, obteve {:?}",
        result
    );
    assert_eq!(q.dropped_late, 3);
}

#[test]
fn spec_av_vq_001_pop_resync_large_jump() {
    let mut q = VideoQueue::new(4);
    let frame_pts: u64 = 500_000;
    q.push(make_frame(Some(frame_pts)));
    match q.pop_ready(0) {
        PopResult::Resync {
            frame: _,
            new_anchor,
        } => {
            assert_eq!(new_anchor, frame_pts as i64);
        }
        other => panic!("esperava Resync, obteve {:?}", other),
    }
    assert_eq!(q.discontinuities, 1);
}

#[test]
fn spec_av_vq_001_pop_large_jump_without_resync_holds() {
    let mut q = VideoQueue::new(4);
    q.push(make_frame(Some(500_000)));

    assert!(matches!(
        q.pop_ready_with_resync(0, false),
        PopResult::TooEarly
    ));
    assert_eq!(q.held_early, 1);
    assert_eq!(q.discontinuities, 0);
    assert_eq!(q.len(), 1);
}

#[test]
fn spec_av_vq_001_wrap_33bit_detected() {
    let mut q = VideoQueue::new(4);
    let near_max: u64 = (1u64 << 33) - 1 - 1000;
    q.push(make_frame(Some(near_max)));
    let r = q.push(make_frame(Some(500)));
    assert_eq!(r, PushResult::WrapDetected);
}

#[test]
fn spec_av_vq_001_wrap_pts_ordering_preserved() {
    let mut q = VideoQueue::new(8);
    let near_max: u64 = (1u64 << 33) - 5_000;
    q.push(make_frame(Some(near_max - 1000)));
    q.push(make_frame(Some(near_max)));
    q.push(make_frame(Some(500)));
    q.push(make_frame(Some(1000)));

    assert_eq!(q.len(), 4);

    assert!(q.len() <= 4);
}

#[test]
fn spec_av_vq_001_clear_resets_state() {
    let mut q = VideoQueue::new(4);
    q.push(make_frame(Some(1000)));
    q.push(make_frame(Some(2000)));
    q.clear();
    assert!(q.is_empty());
    assert_eq!(q.len(), 0);
    let r = q.push(make_frame(Some(100)));
    assert_eq!(r, PushResult::Inserted);
}

#[test]
fn spec_av_vq_001_default_capacity() {
    let q = VideoQueue::default();
    assert_eq!(q.len(), 0);
    assert!(q.is_empty());
}

#[test]
fn spec_av_vq_001_hold_threshold_exact() {
    let mut q = VideoQueue::new(4);
    let clock_pts: Pts90 = 90_000;
    q.push(make_frame(Some((clock_pts + HOLD_PTS) as u64)));
    assert!(matches!(q.pop_ready(clock_pts), PopResult::Ready(_)));
}

#[test]
fn spec_av_vq_001_drop_threshold_exact() {
    let mut q = VideoQueue::new(4);
    let clock_pts: Pts90 = 90_000;
    q.push(make_frame(Some((clock_pts - DROP_PTS) as u64)));
    assert!(matches!(q.pop_ready(clock_pts), PopResult::Ready(_)));
}

#[test]
fn spec_av_vq_001_front_pts_empty() {
    let q = VideoQueue::new(4);
    assert_eq!(q.front_pts(), None);
}

#[test]
fn spec_av_vq_001_front_pts_returns_smallest() {
    let mut q = VideoQueue::new(4);
    q.push(make_frame(Some(3000)));
    q.push(make_frame(Some(1000)));
    q.push(make_frame(Some(2000)));
    assert_eq!(q.front_pts(), Some(1000));
}

#[test]
fn spec_av_vq_001_front_pts_does_not_consume() {
    let mut q = VideoQueue::new(4);
    q.push(make_frame(Some(500)));
    let pts_before = q.front_pts();
    let pts_after = q.front_pts();
    assert_eq!(pts_before, pts_after);
    assert_eq!(q.len(), 1);
}
