use ironplayer::av::deinterlace::{
    filter_args, filtered_header, rescale_bwdif_output_pts, DeinterlaceBackend, Deinterlacer,
    GraphParams, GraphStep,
};
use ironplayer::av::error::AvError;
use ironplayer::av::hw::device::{
    chroma_subresource, description_len, detect_texture_format, map_d3d11_error,
    DXGI_ERROR_DEVICE_REMOVED, DXGI_ERROR_DEVICE_RESET,
};
use ironplayer::av::hw::shared_import::{
    ImportAction, ImportOutcome, SharedFrame, SharedNvImporter,
};
use ironplayer::av::hw::shared_pool::{SharedNvPool, MAX_SLOTS};
use ironplayer::av::hw::surface::{
    AdapterLuid, ColorSpace, HwPixelFormat, NvPlanes, TransferFunction,
};
use ironplayer::av::hw::video_processor::{
    select_rate_conversion_cap, vp_half_frame_step_fallback, D3d11VideoProcessor, RateConversion,
    DEINT_MODE_ADAPTIVE, DEINT_MODE_BOB,
};
use ironplayer::av::picture::FrameHeader;
use ironplayer::av::renderer::{
    prepare_plane_data, scale_10bit_plane, to_bytes, Ratio, RenderKind, SharedPicture,
    VideoRenderer, YuvParamsGpu,
};
use ironplayer::av::video_queue::{
    HwVideoFrame, VideoFrame, YuvColorRange, YuvColorspace, YuvFrame,
};

fn header() -> FrameHeader {
    FrameHeader {
        width: 1920,
        height: 1080,
        nb_samples: 0,
        format: 0,
        sar_num: 1,
        sar_den: 1,
        pts: 7_201,
        sample_rate: 0,
        flags: 1,
        color_range: 1,
        color_trc: 1,
        colorspace: 1,
        channels: 0,
    }
}

#[test]
fn graphs_are_described_to_the_filters() {
    let params = GraphParams::of_frame(&header());
    assert_eq!(
        params.source_args(),
        "video_size=1920x1080:pix_fmt=0:time_base=1/90000:pixel_aspect=0/1:colorspace=1:range=1"
    );
    assert_eq!(filter_args(false), "mode=send_frame:parity=auto:deint=interlaced");
    assert_eq!(filter_args(true), "mode=send_frame:parity=auto:deint=all");
    let odd = GraphParams::of_frame(&FrameHeader { width: -1, height: i32::MIN, ..header() });
    assert_eq!((odd.width, odd.height), (4_294_967_295, 2_147_483_648));
}

#[test]
fn filtered_times_are_halved() {
    assert_eq!(rescale_bwdif_output_pts(7_201), 3_600);
    assert_eq!(rescale_bwdif_output_pts(-7), -3);
    assert_eq!(rescale_bwdif_output_pts(i64::MIN), i64::MIN);
    let filtered = filtered_header(&header());
    assert_eq!(filtered, FrameHeader { pts: 3_600, ..header() });
}

#[test]
fn graphs_are_built_in_order() {
    let mut order = vec![GraphStep::Allocate];
    loop {
        match order[order.len() - 1].advance(0).unwrap() {
            Some(next) => order.push(next),
            None => break,
        }
    }
    assert_eq!(order.len(), 10);
    assert_eq!(order[1], GraphStep::FindSource);
    assert_eq!(order[7], GraphStep::LinkSource);
    assert_eq!(order[9], GraphStep::Configure);
    assert!(!GraphStep::Allocate.leaves_graph());
    assert!(order[1..].iter().all(|step| step.leaves_graph()));
}

#[test]
fn failed_graphs_say_why() {
    assert!(matches!(GraphStep::Allocate.advance(-1), Err(AvError::FfmpegError { code: -12 })));
    assert!(matches!(GraphStep::LinkSink.advance(-7), Err(AvError::FfmpegError { code: -7 })));
    for (step, name) in [
        (GraphStep::FindSource, "buffer"),
        (GraphStep::FindFilter, "bwdif"),
        (GraphStep::FindSink, "buffersink"),
    ] {
        match step.advance(-1) {
            Err(AvError::FfmpegUnavailable { message }) => {
                assert_eq!(message, format!("filtro '{name}' não encontrado em avfilter"));
            }
            _ => panic!("expected an error"),
        }
    }
}

#[test]
fn graphs_are_made_anew_only_for_other_frames() {
    let a = GraphParams::of_frame(&header());
    let b = GraphParams { colorspace: 5, ..a };
    let mut d = Deinterlacer::new(true);
    assert!(d.deint_all());
    assert!(d.prepare(a));
    assert!(d.prepare(a));
    d.built(a);
    assert!(!d.prepare(a));
    assert!(d.prepare(b));
    assert!(d.prepare(a));
}

#[test]
fn backends_have_names() {
    let mut backend = DeinterlaceBackend::Bwdif(Deinterlacer::new(false));
    assert_eq!(backend.label(), Some("bwdif"));
    assert!(backend.is_active());
    backend.clear();
    assert_eq!(backend.label(), None);
    assert!(!backend.is_active());
    let vp = DeinterlaceBackend::D3d11Vp(D3d11VideoProcessor::new(&[], true, 1, 90_000));
    assert_eq!(vp.label(), Some("D3D11 VP"));
}

fn rate(caps: u32, past: u32, future: u32) -> Option<RateConversion> {
    Some(RateConversion { caps, past, future })
}

#[test]
fn the_first_fitting_conversion_is_selected() {
    let rates = [None, rate(2, 1, 1), rate(6, 2, 3), rate(4, 9, 9)];
    assert_eq!(
        select_rate_conversion_cap(&rates, DEINT_MODE_ADAPTIVE),
        rates[2].map(|r| (2, r))
    );
    assert_eq!(select_rate_conversion_cap(&rates, DEINT_MODE_BOB), rates[1].map(|r| (1, r)));
    assert_eq!(select_rate_conversion_cap(&rates[..2], 4), rates[1].map(|r| (1, r)));
    assert_eq!(select_rate_conversion_cap(&rates[..1], 4), None);
}

#[test]
fn field_by_field_needs_no_references() {
    let mut vp = D3d11VideoProcessor::new(&[rate(2, 4, 4)], true, 1, 90_000);
    assert_eq!(vp.rate_index(), 0);
    let blit = vp.queue(11, 100).unwrap();
    assert_eq!(blit.current, 11);
    assert!(blit.past.is_empty() && blit.future.is_empty());
    assert_eq!(vp.finish(1_800), Some(100));
    let blit = vp.queue(12, i64::MIN).unwrap();
    assert!(blit.past.is_empty());
    assert_eq!((blit.input_frame, blit.output_frame), (2, 1));
    assert_eq!(vp.finish(1_800), None);
}

#[test]
fn frames_come_out_in_order_after_those_they_need() {
    let mut vp = D3d11VideoProcessor::new(&[rate(2, 0, 0), rate(4, 2, 1)], true, 1, 90_000);
    assert_eq!(vp.rate_index(), 1);
    let mut out = Vec::new();
    for view in 0..6u64 {
        let pts = 3_600 * view as i64;
        let step = vp.half_frame_pts_step(pts);
        assert_eq!(step, 1_800);
        if let Some(blit) = vp.queue(view, pts) {
            assert_eq!(blit.future, vec![view]);
            let past: Vec<u64> = (blit.current.saturating_sub(2)..blit.current).collect();
            assert_eq!(blit.past, past);
            out.push((blit.current, vp.finish(step)));
        }
    }
    let expected: Vec<(u64, Option<u64>)> = (0..5).map(|v| (v, Some(3_600 * v))).collect();
    assert_eq!(out, expected);
}

#[test]
fn half_steps_follow_the_frames() {
    let mut vp = D3d11VideoProcessor::new(&[], true, 1, 90_000);
    assert_eq!(vp.half_frame_pts_step(0), 1_800);
    assert_eq!(vp.half_frame_pts_step(3_003), 1_501);
    assert_eq!(vp.half_frame_pts_step(9_000), 1_800);
    assert_eq!(vp.half_frame_pts_step(i64::MIN), 1_800);
    assert_eq!(vp_half_frame_step_fallback(1, 50), 1);
    assert_eq!(vp_half_frame_step_fallback(0, 50), 1_800);
    assert!(!vp.set_field_order(true));
    assert!(vp.set_field_order(false));
}

#[test]
fn lent_textures_are_not_lent_again() {
    let mut pool = SharedNvPool::new();
    assert!(pool.can_count());
    assert!(pool.resize(1920, 1080));
    assert!(!pool.resize(1920, 1080));
    assert!(pool.lend().unwrap().is_none());
    let a = pool.grow();
    let b = pool.grow();
    assert_eq!((a.slot(), a.fence_value()), (0, 1));
    assert_eq!((b.slot(), b.fence_value()), (1, 2));
    assert!(pool.lend().unwrap().is_none());
    pool.release(a);
    let c = pool.lend().unwrap().unwrap();
    assert_eq!((c.slot(), c.fence_value()), (0, 3));
    assert!(pool.lend().unwrap().is_none());
}

#[test]
fn outdated_textures_are_not_reused() {
    let mut pool = SharedNvPool::new();
    pool.resize(1920, 1080);
    let old = pool.grow();
    assert!(pool.resize(1280, 720));
    assert!(pool.resize(1920, 1080));
    let new = pool.grow();
    assert_eq!(new.slot(), old.slot());
    pool.release(old);
    assert!(pool.lend().unwrap().is_none());
    pool.release(new);
    assert!(pool.lend().unwrap().is_some());
}

#[test]
fn pools_are_bounded() {
    let mut pool = SharedNvPool::new();
    pool.resize(16, 16);
    for _ in 0..MAX_SLOTS {
        assert!(pool.lend().unwrap().is_none());
        pool.grow();
    }
    match pool.lend() {
        Err(AvError::HwInitFailed(m)) => {
            assert_eq!(m, "pool de texturas compartilhadas esgotado");
        }
        _ => panic!("expected an error"),
    }
}

#[test]
fn shared_frames_are_shown_once_finished() {
    let mut importer = SharedNvImporter::new();
    let frame = SharedFrame { texture_handle: 7, fence_value: 3, width: 16, height: 16 };
    assert_eq!(importer.prepare(&frame), (ImportAction::OpenDevice, true));
    let action = importer.advance(&frame, ImportAction::OpenDevice, ImportOutcome::Opened);
    assert_eq!(action, ImportAction::OpenFence);
    let action = importer.advance(&frame, action, ImportOutcome::Opened);
    assert_eq!(action, ImportAction::ReadFence);
    assert_eq!(importer.advance(&frame, action, ImportOutcome::Reached(2)), ImportAction::Skip);
    let action = importer.advance(&frame, action, ImportOutcome::Reached(3));
    assert_eq!(action, ImportAction::ImportTexture);
    assert_eq!(importer.advance(&frame, action, ImportOutcome::Opened), ImportAction::Show);

    assert_eq!(importer.prepare(&frame), (ImportAction::ReadFence, false));
    let read = ImportAction::ReadFence;
    assert_eq!(importer.advance(&frame, read, ImportOutcome::Reached(9)), ImportAction::Show);

    let larger = SharedFrame { width: 32, ..frame };
    assert_eq!(importer.prepare(&larger), (ImportAction::ReadFence, true));
    let action = importer.advance(&larger, read, ImportOutcome::Reached(9));
    assert_eq!(action, ImportAction::ImportTexture);
    assert_eq!(importer.advance(&larger, action, ImportOutcome::Failed), ImportAction::Disable);
}

#[test]
fn failures_to_open_are_told_apart() {
    let mut importer = SharedNvImporter::new();
    let frame = SharedFrame { texture_handle: 7, fence_value: 3, width: 16, height: 16 };
    importer.prepare(&frame);
    let open = ImportAction::OpenDevice;
    assert_eq!(importer.advance(&frame, open, ImportOutcome::Missing), ImportAction::Skip);
    importer.advance(&frame, open, ImportOutcome::Opened);
    let fence = ImportAction::OpenFence;
    assert_eq!(importer.advance(&frame, fence, ImportOutcome::Missing), ImportAction::Skip);
    assert_eq!(importer.advance(&frame, fence, ImportOutcome::Failed), ImportAction::Disable);
}

#[test]
fn device_errors_tell_lost_devices_apart() {
    for code in [DXGI_ERROR_DEVICE_REMOVED, DXGI_ERROR_DEVICE_RESET] {
        let e = map_d3d11_error("Map Y", code, "gone");
        assert!(e.is_device_removed());
        assert_eq!(e.message(), "device D3D11 removido/resetado: Map Y: gone");
    }
    let e = map_d3d11_error("Map UV", 0x8000_4005, "failed");
    assert!(!e.is_device_removed());
    assert_eq!(e.message(), "falha na inicialização de hwaccel: Map UV: failed");
}

#[test]
fn two_surface_formats_are_known() {
    assert_eq!(detect_texture_format(103).unwrap(), HwPixelFormat::Nv12);
    assert_eq!(detect_texture_format(104).unwrap(), HwPixelFormat::P010);
    assert_eq!(
        detect_texture_format(28).unwrap_err().message(),
        "falha na inicialização de hwaccel: formato D3D11VA não suportado: DXGI_FORMAT(28)"
    );
    assert_eq!(chroma_subresource(20, 3), 23);
    assert_eq!(description_len(&[65, 66, 0, 67]), 2);
    assert_eq!(description_len(&[65, 66]), 2);
}

#[test]
fn adapters_are_numbered_and_named() {
    let luid = AdapterLuid { low_part: 0x1234, high_part: -2 };
    assert_eq!(luid.as_u64(), 0xFFFF_FFFE_0000_1234);
    assert_eq!(luid.to_text(), "0xfffffffe:0x00001234");
    assert_eq!(ColorSpace::from_avutil(6), ColorSpace::Bt601);
    assert_eq!(ColorSpace::from_avutil(9), ColorSpace::Bt2020);
    assert_eq!(ColorSpace::from_avutil(2), ColorSpace::Bt709);
}

fn software(width: u32, height: u32, ten_bit: bool) -> VideoFrame {
    VideoFrame::Sw(YuvFrame {
        planes: [vec![1], vec![2], vec![3]],
        width,
        height,
        pts: None,
        sar_num: 1,
        sar_den: 1,
        colorspace: YuvColorspace::Bt601,
        color_range: YuvColorRange::Full,
        ten_bit,
    })
}

fn hardware(width: u32, height: u32) -> VideoFrame {
    VideoFrame::Hw(HwVideoFrame {
        planes: NvPlanes { y_data: vec![], uv_data: vec![], width, height, ten_bit: true },
        colorspace: YuvColorspace::Bt2020,
        color_range: YuvColorRange::Limited,
        transfer: TransferFunction::Hlg,
        pts: None,
        width,
        height,
        sar_num: 1,
        sar_den: 1,
    })
}

#[test]
fn software_frames_are_planned_plane_by_plane() {
    let mut r = VideoRenderer::new(0);
    assert_eq!(r.current_colorspace_label(), None);
    assert_eq!(r.current_color_range_label(), None);
    let plan = r.render_to_texture(&software(5, 3, true), 1).unwrap();
    assert_eq!(plan.kind, RenderKind::Yuv);
    assert!(plan.new_textures && plan.new_outputs && plan.ten_bit);
    assert_eq!((plan.luma.width, plan.luma.height, plan.luma.bytes_per_row), (5, 3, 10));
    assert_eq!((plan.chroma.width, plan.chroma.height, plan.chroma.bytes_per_row), (3, 2, 6));
    assert_eq!(r.current_colorspace_label(), Some("BT.601"));
    assert_eq!(r.current_color_range_label(), Some("Full"));
    let again = r.render_to_texture(&software(5, 3, true), 2).unwrap();
    assert!(!again.new_textures && !again.new_outputs);
    let other = r.render_to_texture(&software(5, 3, false), 3).unwrap();
    assert!(other.new_textures && !other.new_outputs);
    assert!(r.render_to_texture(&software(0, 3, false), 3).is_none());
}

#[test]
fn hardware_frames_have_interleaved_chroma() {
    let mut r = VideoRenderer::new(0);
    let plan = r.render_to_texture(&hardware(6, 5), 1).unwrap();
    assert_eq!(plan.kind, RenderKind::NvCpu);
    assert_eq!((plan.chroma.width, plan.chroma.height, plan.chroma.bytes_per_row), (3, 3, 12));
    assert_eq!(plan.params.col0.extra, Ratio { num: 2, den: 1 });
    assert_eq!(plan.params.gamut_map, Ratio { num: 1, den: 1 });
    assert_eq!(r.current_colorspace_label(), Some("BT.2020"));
    assert_eq!(r.current_color_range_label(), Some("Limited"));
}

#[test]
fn outputs_are_used_in_turn() {
    let mut r = VideoRenderer::new(0);
    let used: Vec<usize> = (0..5)
        .map(|_| r.render_to_texture(&software(4, 4, false), 1).unwrap().output)
        .collect();
    assert_eq!(used, vec![0, 1, 2, 0, 1]);
    let plan = r.render_to_texture(&software(8, 4, false), 1).unwrap();
    assert!(plan.new_outputs);
    assert_eq!(plan.output, 0);
}

#[test]
fn shared_pictures_take_their_turn() {
    let mut r = VideoRenderer::new(0);
    let picture = SharedPicture {
        width: 4,
        height: 4,
        colorspace: YuvColorspace::Bt709,
        color_range: YuvColorRange::Full,
        transfer: TransferFunction::Bt1886,
    };
    assert!(r.render_shared(&picture, false).is_none());
    assert_eq!(r.current_colorspace_label(), Some("BT.709"));
    let plan = r.render_shared(&picture, true).unwrap();
    assert!(plan.new_outputs);
    assert_eq!(plan.output, 0);
    assert_eq!(plan.params.range_scale, Ratio { num: 1, den: 1 });
    let frame = r.render_to_texture(&software(4, 4, false), 1).unwrap();
    assert!(!frame.new_outputs);
    assert_eq!(frame.output, 1);
    assert_eq!(r.render_shared(&picture, true).unwrap().output, 2);
    assert!(r.render_shared(&SharedPicture { height: 0, ..picture }, true).is_none());
    assert_eq!(r.current_color_range_label(), Some("Full"));
}

#[test]
fn uploads_are_counted_by_the_second() {
    let mut r = VideoRenderer::new(100);
    assert_eq!(r.render_to_texture(&software(4, 4, false), 200).unwrap().window, None);
    let plan = r.render_to_texture(&software(3, 3, true), 1_000_000_100).unwrap();
    assert_eq!(plan.window, Some((24 + 34, 1_000_000_000)));
    let plan = r.render_to_texture(&software(4, 4, false), 2_000_000_099).unwrap();
    assert_eq!(plan.window, None);
}

#[test]
fn planes_are_scaled_or_borrowed() {
    assert_eq!(scale_10bit_plane(&[0x01, 0x00, 0xFF, 0x03, 9]), vec![0x40, 0x00, 0xC0, 0xFF, 0]);
    assert_eq!(scale_10bit_plane(&[0x00, 0x04]), vec![0xFF, 0xFF]);
    assert_eq!(prepare_plane_data(&[1, 0], true).as_slice(), &[64, 0]);
    assert_eq!(prepare_plane_data(&[1, 0], false).as_slice(), &[1, 0]);
}

#[test]
fn shader_parameters_are_exact() {
    let p = YuvParamsGpu::for_frame(
        YuvColorspace::Bt709,
        YuvColorRange::Limited,
        TransferFunction::Srgb,
        false,
    );
    assert_eq!(p.col2.r, Ratio { num: 1_574_800 * 255, den: 224_000_000 });
    assert_eq!(p.luma_offset, Ratio { num: 16, den: 255 });
    assert_eq!(p.range_scale, Ratio { num: 255, den: 219 });
    assert_eq!(p.col0.extra, Ratio { num: 3, den: 1 });
    assert_eq!(p.col1.extra, Ratio { num: 0, den: 1 });
    assert_eq!(p.values()[13], Ratio { num: 1, den: 2 });
    let white = (235.0 / 255.0 - 16.0 / 255.0) * 255.0 / 219.0f64;
    assert!((white - 1.0).abs() < 1e-12);
    let mut words = [0u32; 16];
    words[1] = 0x0102_0304;
    assert_eq!(&to_bytes(&words)[4..8], &[4, 3, 2, 1]);
}
