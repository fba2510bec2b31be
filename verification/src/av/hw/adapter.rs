use vstd::prelude::*;
use vstd::string::StringExecFns;

use crate::av::hw::surface::{pattern32, AdapterLuid};

verus! {

/// Figures about the playback pipeline that the hardware side fills in.
#[derive(Debug)]
pub struct PipelineMetrics {
    /// Name of the graphics adapter in use, if there is one.
    pub gpu_adapter_name: Option<String>,
    pub gpu_adapter_luid: u64,
    pub hw_decode_active: bool,
    pub tdr_recoveries: u64,
}

impl Default for PipelineMetrics {
    fn default() -> (r: Self)
        ensures
            r == (PipelineMetrics {
                gpu_adapter_name: None,
                gpu_adapter_luid: 0,
                hw_decode_active: false,
                tdr_recoveries: 0,
            }),
    {
        PipelineMetrics {
            gpu_adapter_name: None,
            gpu_adapter_luid: 0,
            hw_decode_active: false,
            tdr_recoveries: 0,
        }
    }
}

/// What is shown of the graphics adapter in use.
#[derive(Debug, Clone, PartialEq, Eq)]
pub struct AdapterInfo {
    pub name: String,
    pub luid: u64,
    pub vendor_id: u32,
}

impl Default for AdapterInfo {
    fn default() -> (r: Self)
        ensures
            r.name@ == Seq::<char>::empty(),
            r.luid == 0,
            r.vendor_id == 0,
    {
        AdapterInfo { name: String::new(), luid: 0, vendor_id: 0 }
    }
}

impl AdapterInfo {
    /// Collects what a device says of its adapter.
    pub fn from_device(description: &str, luid: AdapterLuid, vendor_id: u32) -> (r: Self)
        ensures
            r.name@ == description@,
            r.luid == pattern32(luid.high_part) * 0x1_0000_0000 + luid.low_part,
            r.vendor_id == vendor_id,
    {
        AdapterInfo { name: String::from_str(description), luid: luid.as_u64(), vendor_id }
    }

    /// Fills in the adapter fields and leaves the others alone.  An empty name
    /// means that no adapter is in use.
    pub fn apply_to_metrics(&self, metrics: &mut PipelineMetrics)
        ensures
            final(metrics).gpu_adapter_luid == self.luid,
            final(metrics).hw_decode_active == old(metrics).hw_decode_active,
            final(metrics).tdr_recoveries == old(metrics).tdr_recoveries,
            match final(metrics).gpu_adapter_name {
                None => self.name@.len() == 0,
                Some(name) => self.name@.len() > 0 && name@ == self.name@,
            },
    {
        metrics.gpu_adapter_name = if self.name.as_str().is_empty() {
            None
        } else {
            Some(self.name.clone())
        };
        metrics.gpu_adapter_luid = self.luid;
    }
}

} // verus!
