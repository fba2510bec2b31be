use vstd::prelude::*;
use vstd::string::StringExecFns;

use crate::text::{fixed_hex, push_hex};

verus! {

/// Pixel layouts of hardware surfaces.
#[derive(Debug, Clone, Copy, PartialEq, Eq, Structural)]
pub enum HwPixelFormat {
    /// Eight bits per sample.
    Nv12,
    /// Ten bits per sample.
    P010,
}

/// Colour matrices of hardware surfaces.
#[derive(Debug, Clone, Copy, PartialEq, Eq, Structural)]
pub enum ColorSpace {
    Bt601,
    Bt709,
    Bt2020,
}

impl ColorSpace {
    /// The matrix that a decoder colour space code stands for.
    pub fn from_avutil(cs: i32) -> (r: Self)
        ensures
            r == if cs == 5 || cs == 6 {
                ColorSpace::Bt601
            } else if cs == 9 {
                ColorSpace::Bt2020
            } else {
                ColorSpace::Bt709
            },
    {
        match cs {
            5 | 6 => ColorSpace::Bt601,
            9 => ColorSpace::Bt2020,
            _ => ColorSpace::Bt709,
        }
    }
}

/// Transfer functions of hardware surfaces.
#[derive(Debug, Clone, Copy, PartialEq, Eq, Structural)]
pub enum TransferFunction {
    Bt1886,
    Pq,
    Hlg,
    Srgb,
}

impl TransferFunction {
    /// The function that a decoder transfer code stands for.
    pub fn from_avutil(trc: i32) -> (r: Self)
        ensures
            r == if trc == 16 {
                TransferFunction::Pq
            } else if trc == 18 {
                TransferFunction::Hlg
            } else if trc == 13 {
                TransferFunction::Srgb
            } else {
                TransferFunction::Bt1886
            },
    {
        match trc {
            16 => TransferFunction::Pq,
            18 => TransferFunction::Hlg,
            13 => TransferFunction::Srgb,
            _ => TransferFunction::Bt1886,
        }
    }
}

/// Locally unique identifier of a graphics adapter.
#[derive(Debug, Clone, Copy, PartialEq, Eq, Structural)]
pub struct AdapterLuid {
    pub low_part: u32,
    pub high_part: i32,
}

/// The 32-bit two's complement pattern of `v`.
pub open spec fn pattern32(v: i32) -> nat {
    (if v < 0 {
        v + 0x1_0000_0000
    } else {
        v as int
    }) as nat
}

fn bits_of(v: i32) -> (r: u32)
    ensures
        r == pattern32(v),
{
    if v < 0 {
        (v as i64 + 0x1_0000_0000) as u32
    } else {
        v as u32
    }
}

impl AdapterLuid {
    /// The identifier as one number, high part first.
    pub fn as_u64(self) -> (r: u64)
        ensures
            r == pattern32(self.high_part) * 0x1_0000_0000 + self.low_part,
    {
        (bits_of(self.high_part) as u64) * 0x1_0000_0000 + self.low_part as u64
    }

    /// The identifier as two hexadecimal numbers, `0x........:0x........`.
    pub fn to_text(self) -> (r: String)
        ensures
            r@ == "0x"@ + fixed_hex(pattern32(self.high_part), 8, false) + ":0x"@ + fixed_hex(
                self.low_part as nat,
                8,
                false,
            ),
    {
        let mut s = String::from_str("0x");
        push_hex(&mut s, bits_of(self.high_part) as u64, 8, false);
        s.append(":0x");
        push_hex(&mut s, self.low_part as u64, 8, false);
        s
    }
}

/// Distinct adapters have distinct numbers.
pub proof fn law_adapter_numbers_are_unique(a: AdapterLuid, b: AdapterLuid)
    requires
        pattern32(a.high_part) * 0x1_0000_0000 + a.low_part == pattern32(b.high_part)
            * 0x1_0000_0000 + b.low_part,
    ensures
        a == b,
{
}

/// Luma and interleaved chroma of a hardware surface, rows without padding.
#[derive(Debug)]
pub struct NvPlanes {
    pub y_data: Vec<u8>,
    pub uv_data: Vec<u8>,
    pub width: u32,
    pub height: u32,
    pub ten_bit: bool,
}

} // verus!
