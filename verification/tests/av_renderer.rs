use ironplayer::av::hw::surface::TransferFunction;
use ironplayer::av::renderer::{scale_10bit_plane, to_bytes, Ratio, YuvParamsGpu};
use ironplayer::av::video_queue::{YuvColorRange, YuvColorspace};

fn value(r: Ratio) -> f32 {
    r.num as f32 / r.den as f32
}

fn words(p: &YuvParamsGpu) -> [u32; 16] {
    p.values().map(|r| value(r).to_bits())
}

#[test]
fn spec_av_003_yuv_params_size() {
    let p = YuvParamsGpu::for_frame(
        YuvColorspace::Bt709,
        YuvColorRange::Limited,
        TransferFunction::Bt1886,
        false,
    );
    assert_eq!(to_bytes(&words(&p)).len(), 64);
}

#[test]
fn spec_av_003_yuv_params_range_scale_limited() {
    let p = YuvParamsGpu::for_frame(
        YuvColorspace::Bt709,
        YuvColorRange::Limited,
        TransferFunction::Bt1886,
        false,
    );
    let range_scale = value(p.range_scale);
    let expected = 255.0_f32 / 219.0;
    assert!(
        (range_scale - expected).abs() < 1e-4,
        "range_scale BT.709 limited deve ser ≈ {expected}, got {range_scale}"
    );
}

#[test]
fn spec_av_003_yuv_params_luma_offset_limited_8bit() {
    let p = YuvParamsGpu::for_frame(
        YuvColorspace::Bt709,
        YuvColorRange::Limited,
        TransferFunction::Bt1886,
        false,
    );
    let expected = 16.0_f32 / 255.0_f32;
    assert!((value(p.luma_offset) - expected).abs() < 1e-6);
    assert!((value(p.uv_center) - 0.5_f32).abs() < 1e-6);
}

#[test]
fn spec_av_003_yuv_params_luma_offset_limited_10bit() {
    let p = YuvParamsGpu::for_frame(
        YuvColorspace::Bt2020,
        YuvColorRange::Limited,
        TransferFunction::Bt1886,
        true,
    );
    let expected = 64.0_f32 / 1023.0_f32;
    assert!((value(p.luma_offset) - expected).abs() < 1e-6);
}

#[test]
fn spec_av_003_yuv_params_range_scale_full() {
    let p = YuvParamsGpu::for_frame(
        YuvColorspace::Bt709,
        YuvColorRange::Full,
        TransferFunction::Bt1886,
        false,
    );
    let range_scale = value(p.range_scale);
    assert!(
        (range_scale - 1.0_f32).abs() < 1e-6,
        "range_scale full deve ser 1.0, got {range_scale}"
    );
}

#[test]
fn spec_av_003_yuv_params_hdr_transfer_sets_shader_metadata() {
    let p = YuvParamsGpu::for_frame(
        YuvColorspace::Bt2020,
        YuvColorRange::Limited,
        TransferFunction::Pq,
        true,
    );
    assert_eq!(value(p.col0.extra), 1.0, "PQ deve mapear para transfer_mode=1");
    assert_eq!(value(p.col1.extra), 1.0, "PQ deve habilitar clipping SDR documentado");
}

#[test]
fn spec_av_003_scale_10bit_max() {
    let max_10bit: u16 = 1023;
    let input = max_10bit.to_le_bytes();
    let out = scale_10bit_plane(&input);
    let result = u16::from_le_bytes([out[0], out[1]]);
    assert_eq!(result, 65472, "10-bit max deve escalar para 65472");
}

#[test]
fn spec_av_003_scale_10bit_zero() {
    let input = 0u16.to_le_bytes();
    let out = scale_10bit_plane(&input);
    let result = u16::from_le_bytes([out[0], out[1]]);
    assert_eq!(result, 0);
}
