use ironplayer::av::codec::DeinterlaceMode;
use ironplayer::av::scan_type::{
    detect_h264_scan_type, update_scan_type, ScanType, AV_FIELD_PROGRESSIVE,
};

fn interlaced_1080i_sps_au() -> Vec<u8> {
    vec![
        0x00, 0x00, 0x00, 0x01, 0x67, 0x64, 0x00, 0x28, 0xac, 0x2c, 0xa4, 0x0f, 0x80, 0x22,
        0x7e, 0x5b, 0x02, 0x02, 0x02, 0x40, 0x00, 0x00, 0x03, 0x00, 0x40, 0x00, 0x00, 0x0f,
        0x03, 0xc6, 0x0c, 0x65, 0x80,
    ]
}

#[test]
fn spec_av_005_globo_copa_sps_detects_interlaced() {
    let au: Vec<u8> = vec![
        0x00, 0x00, 0x00, 0x01, 0x67, 0x64, 0x00, 0x28, 0xAC, 0x13, 0x31, 0x40, 0x78, 0x04,
        0x47, 0xDE, 0x03, 0xEA, 0x02, 0x02, 0x03, 0xE0, 0x00, 0x00, 0x7D, 0x20, 0x00, 0x1D,
        0x4C, 0x12, 0x80,
    ];
    assert_eq!(
        detect_h264_scan_type(&au),
        Some(ScanType::Interlaced),
        "SPS Globo Copa deve ser entrelaçado (MBAFF)"
    );
}

#[test]
fn spec_av_005_field_order_progressive_without_sps_stays_unknown() {
    let updated = update_scan_type(
        ScanType::Unknown,
        DeinterlaceMode::Auto,
        true,
        &[],
        false,
        AV_FIELD_PROGRESSIVE,
    );
    assert_eq!(updated, ScanType::Unknown);
}

#[test]
fn spec_av_005_globo_sps_overrides_premature_field_order_progressive() {
    let au: Vec<u8> = vec![
        0x00, 0x00, 0x00, 0x01, 0x67, 0x64, 0x00, 0x28, 0xAC, 0x13, 0x31, 0x40, 0x78, 0x04,
        0x47, 0xDE, 0x03, 0xEA, 0x02, 0x02, 0x03, 0xE0, 0x00, 0x00, 0x7D, 0x20, 0x00, 0x1D,
        0x4C, 0x12, 0x80,
    ];
    let updated = update_scan_type(
        ScanType::Unknown,
        DeinterlaceMode::Auto,
        true,
        &au,
        false,
        AV_FIELD_PROGRESSIVE,
    );
    assert_eq!(updated, ScanType::Interlaced);
}

#[test]
fn spec_av_005_sps_detects_interlaced() {
    let au = interlaced_1080i_sps_au();
    let detected = detect_h264_scan_type(&au);
    assert_eq!(
        detected,
        Some(ScanType::Interlaced),
        "SPS interlaced deve ser detectado"
    );
}

#[test]
fn spec_av_005_no_sps_returns_none() {
    let data = [0x00, 0x00, 0x01, 0x65, 0x88, 0x84];
    assert_eq!(detect_h264_scan_type(&data), None);
}

#[test]
fn spec_av_005_frame_flag_latches_interlaced() {
    let updated = update_scan_type(
        ScanType::Unknown,
        DeinterlaceMode::Auto,
        true,
        &[],
        true,
        0,
    );
    assert_eq!(updated, ScanType::Interlaced);
}

#[test]
fn spec_av_005_force_mode_latches_interlaced() {
    let updated = update_scan_type(
        ScanType::Unknown,
        DeinterlaceMode::Force,
        false,
        &[],
        false,
        0,
    );
    assert_eq!(updated, ScanType::Interlaced);
}

#[test]
fn spec_av_005_resolved_scan_type_is_stable() {
    let updated = update_scan_type(
        ScanType::Interlaced,
        DeinterlaceMode::Auto,
        true,
        &[],
        false,
        AV_FIELD_PROGRESSIVE,
    );
    assert_eq!(updated, ScanType::Interlaced);
}
