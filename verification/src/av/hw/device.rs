use vstd::prelude::*;
use vstd::string::StringExecFns;

use crate::av::error::AvError;
use crate::av::hw::surface::HwPixelFormat;
use crate::text::{push_signed, signed_decimal};

verus! {

/// Result code of a device that was removed.
pub const DXGI_ERROR_DEVICE_REMOVED: u32 = 0x887A_0005;

/// Result code of a device that was reset.
pub const DXGI_ERROR_DEVICE_RESET: u32 = 0x887A_0007;

/// Surface format of eight bits per sample.
pub const DXGI_FORMAT_NV12: i32 = 103;

/// Surface format of ten bits per sample.
pub const DXGI_FORMAT_P010: i32 = 104;

/// The error for a device call that failed with `code`, described by `text`:
/// a lost device is told apart from any other failure.
pub fn map_d3d11_error(context: &str, code: u32, text: &str) -> (r: AvError)
    ensures
        if code == DXGI_ERROR_DEVICE_REMOVED || code == DXGI_ERROR_DEVICE_RESET {
            r matches AvError::HwDeviceRemoved(m) && m@ == context@ + ": "@ + text@
        } else {
            r matches AvError::HwInitFailed(m) && m@ == context@ + ": "@ + text@
        },
{
    let mut message = String::from_str(context);
    message.append(": ");
    message.append(text);
    if code == DXGI_ERROR_DEVICE_REMOVED || code == DXGI_ERROR_DEVICE_RESET {
        AvError::HwDeviceRemoved(message)
    } else {
        AvError::HwInitFailed(message)
    }
}

/// The layout of a surface format; only two are decoded into.
pub fn detect_texture_format(format: i32) -> (r: Result<HwPixelFormat, AvError>)
    ensures
        match r {
            Ok(HwPixelFormat::Nv12) => format == DXGI_FORMAT_NV12,
            Ok(HwPixelFormat::P010) => format == DXGI_FORMAT_P010,
            Err(e) => {
                &&& format != DXGI_FORMAT_NV12
                &&& format != DXGI_FORMAT_P010
                &&& e matches AvError::HwInitFailed(m) && m@
                    == "formato D3D11VA não suportado: DXGI_FORMAT("@ + signed_decimal(
                    format as int,
                ) + ")"@
            },
        },
{
    if format == DXGI_FORMAT_NV12 {
        Ok(HwPixelFormat::Nv12)
    } else if format == DXGI_FORMAT_P010 {
        Ok(HwPixelFormat::P010)
    } else {
        let mut message = String::from_str("formato D3D11VA não suportado: DXGI_FORMAT(");
        push_signed(&mut message, format as i64);
        message.append(")");
        Err(AvError::HwInitFailed(message))
    }
}

/// How many code units an adapter description has before its first zero, or
/// in all where there is none.
pub fn description_len(description: &[u16]) -> (r: usize)
    ensures
        r <= description@.len(),
        forall|i: int| 0 <= i < r ==> description@[i] != 0,
        r < description@.len() ==> description@[r as int] == 0,
{
    let mut n: usize = 0;
    while n < description.len() && description[n] != 0
        invariant
            n <= description@.len(),
            forall|i: int| 0 <= i < n ==> description@[i] != 0,
        decreases description@.len() - n,
    {
        n += 1;
    }
    n
}

/// The subresource that holds the chroma of `array_slice` in a surface array
/// of `array_size`: chroma follows the luma of all slices.
pub fn chroma_subresource(array_size: u32, array_slice: u32) -> (r: u32)
    requires
        array_size + array_slice <= u32::MAX,
    ensures
        r == array_size + array_slice,
{
    array_size + array_slice
}

} // verus!
