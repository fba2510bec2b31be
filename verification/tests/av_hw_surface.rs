use ironplayer::av::hw::surface::{AdapterLuid, TransferFunction};

#[test]
fn spec_av_hw_001_luid_roundtrip() {
    let luid = AdapterLuid {
        low_part: 0x0000_1234,
        high_part: 0x0000_0001,
    };
    let u = luid.as_u64();
    assert_eq!(
        u & 0xFFFF_FFFF,
        0x0000_1234u64,
        "LowPart deve estar nos 32 bits baixos"
    );
    assert_eq!(
        u >> 32,
        0x0000_0001u64,
        "HighPart deve estar nos 32 bits altos"
    );
}

#[test]
fn spec_av_hw_001_luid_negative_high() {
    let luid = AdapterLuid {
        low_part: 0xDEAD_BEEF,
        high_part: -1,
    };
    let u = luid.as_u64();
    assert_eq!(u >> 32, 0xFFFF_FFFFu64);
    assert_eq!(u & 0xFFFF_FFFF, 0xDEAD_BEEFu64);
}

#[test]
fn spec_av_hw_001_transfer_function_from_avutil_maps_hdr_values() {
    assert_eq!(TransferFunction::from_avutil(16), TransferFunction::Pq);
    assert_eq!(TransferFunction::from_avutil(18), TransferFunction::Hlg);
    assert_eq!(TransferFunction::from_avutil(1), TransferFunction::Bt1886);
}
