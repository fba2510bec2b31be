use ironplayer::av::hw::adapter::{AdapterInfo, PipelineMetrics};

#[test]
fn spec_metrics_hw_001_adapter_info_default_is_empty() {
    let info = AdapterInfo::default();
    assert!(info.name.is_empty());
    assert_eq!(info.luid, 0);
    assert_eq!(info.vendor_id, 0);
}

#[test]
fn spec_metrics_hw_001_apply_to_metrics_populates_fields() {
    let info = AdapterInfo {
        name: "NVIDIA GeForce RTX 4060".into(),
        luid: 0x0000_0001_0000_1234,
        vendor_id: 0x10de,
    };
    let mut m = PipelineMetrics::default();
    info.apply_to_metrics(&mut m);
    assert_eq!(
        m.gpu_adapter_name.as_deref(),
        Some("NVIDIA GeForce RTX 4060")
    );
    assert_eq!(m.gpu_adapter_luid, 0x0000_0001_0000_1234);
}

#[test]
fn spec_metrics_hw_001_apply_to_metrics_empty_name_yields_none() {
    let info = AdapterInfo::default();
    let mut m = PipelineMetrics {
        gpu_adapter_name: Some("stale".into()),
        ..PipelineMetrics::default()
    };
    info.apply_to_metrics(&mut m);
    assert_eq!(m.gpu_adapter_name, None);
    assert_eq!(m.gpu_adapter_luid, 0);
}
