use vstd::arithmetic::power2::pow2;
use vstd::prelude::*;

use crate::av::codec::DeinterlaceMode;

verus! {

/// How the pictures of a stream are scanned, as far as it is known.
#[derive(Debug, Clone, Copy, PartialEq, Eq, Structural)]
pub enum ScanType {
    Unknown,
    Progressive,
    Interlaced,
}

impl Default for ScanType {
    fn default() -> (r: Self)
        ensures
            r == ScanType::Unknown,
    {
        ScanType::Unknown
    }
}

impl ScanType {
    /// Whether the scan type has been settled for the stream.
    pub fn is_resolved(self) -> (r: bool)
        ensures
            r == (self != ScanType::Unknown),
    {
        match self {
            ScanType::Unknown => false,
            _ => true,
        }
    }

    pub fn is_interlaced(self) -> (r: bool)
        ensures
            r == (self == ScanType::Interlaced),
    {
        match self {
            ScanType::Interlaced => true,
            _ => false,
        }
    }

    /// A stable label for metrics.
    pub fn label(self) -> (r: &'static str)
        ensures
            r@ == (match self {
                ScanType::Unknown => "Unknown"@,
                ScanType::Progressive => "Progressive"@,
                ScanType::Interlaced => "Interlaced"@,
            }),
    {
        match self {
            ScanType::Unknown => "Unknown",
            ScanType::Progressive => "Progressive",
            ScanType::Interlaced => "Interlaced",
        }
    }
}

/// Why the deinterlacer is in the state it is in.
#[derive(Debug, Clone, Copy, PartialEq, Eq, Structural)]
pub enum DeinterlaceReason {
    NotDetected,
    Off,
    NoAvfilter,
    Active,
    Forced,
}

impl Default for DeinterlaceReason {
    fn default() -> (r: Self)
        ensures
            r == DeinterlaceReason::NotDetected,
    {
        DeinterlaceReason::NotDetected
    }
}

impl DeinterlaceReason {
    /// A stable label for metrics.
    pub fn label(self) -> (r: &'static str)
        ensures
            r@ == (match self {
                DeinterlaceReason::NotDetected => "NotDetected"@,
                DeinterlaceReason::Off => "Off"@,
                DeinterlaceReason::NoAvfilter => "NoAvfilter"@,
                DeinterlaceReason::Active => "Active"@,
                DeinterlaceReason::Forced => "Forced"@,
            }),
    {
        match self {
            DeinterlaceReason::NotDetected => "NotDetected",
            DeinterlaceReason::Off => "Off",
            DeinterlaceReason::NoAvfilter => "NoAvfilter",
            DeinterlaceReason::Active => "Active",
            DeinterlaceReason::Forced => "Forced",
        }
    }
}

/// Field order that the decoder reports for progressive content.
pub const AV_FIELD_PROGRESSIVE: i32 = 1;

/// Smallest field order that the decoder reports for interlaced content.
pub const AV_FIELD_INTERLACED_MIN: i32 = 2;

/// Bit `pos` of `data`, counted from the most significant bit of each byte.
pub open spec fn bit_at(data: Seq<u8>, pos: int) -> int {
    ((data[pos / 8] >> ((7 - pos % 8) as u8)) & 1u8) as int
}

/// The `n` bits from `pos` as a number, most significant bit first.
pub open spec fn bits_at(data: Seq<u8>, pos: int, n: nat) -> int
    decreases n,
{
    if n == 0 {
        0
    } else {
        2 * bits_at(data, pos, (n - 1) as nat) + bit_at(data, pos + n - 1)
    }
}

/// How many zero bits stand from `pos` to the next one bit or to the end.
pub open spec fn zeros_at(data: Seq<u8>, pos: int) -> nat
    decreases 8 * data.len() - pos,
{
    if pos >= 8 * data.len() || bit_at(data, pos) != 0 {
        0
    } else {
        1 + zeros_at(data, pos + 1)
    }
}

/// The Exp-Golomb code at `pos`: its value and where it ends.  At most 31
/// leading zeros are taken.
#[verifier::opaque]
pub open spec fn ue_at(data: Seq<u8>, pos: int) -> Option<(int, int)> {
    let z = zeros_at(data, pos);
    if z <= 31 && pos + 2 * z + 1 <= 8 * data.len() {
        Some((pow2(z) - 1 + bits_at(data, pos + z + 1, z), pos + 2 * z + 1))
    } else {
        None
    }
}

/// The signed number that the Exp-Golomb value `k` stands for, in 32-bit
/// arithmetic.
pub open spec fn se_value(k: int) -> int {
    if k % 2 == 0 {
        if k < 0x8000_0000 {
            -(k / 2)
        } else {
            (0x1_0000_0000 - k) / 2
        }
    } else if k < 0x7FFF_FFFF {
        (k + 1) / 2
    } else {
        (k + 1 - 0x1_0000_0000) / 2
    }
}

/// Reads bits and Exp-Golomb codes, most significant bit first.
struct BitReader<'a> {
    data: &'a [u8],
    byte: usize,
    bit: u8,
}

impl<'a> BitReader<'a> {
    spec fn wf(&self) -> bool {
        &&& self.bit < 8
        &&& self.byte <= self.data@.len()
        &&& self.byte == self.data@.len() ==> self.bit == 0
    }

    /// The number of bits read.
    spec fn pos(&self) -> int {
        8 * self.byte + self.bit
    }

    fn new(data: &'a [u8]) -> (r: Self)
        ensures
            r.wf(),
            r.data@ == data@,
            r.pos() == 0,
    {
        BitReader { data, byte: 0, bit: 0 }
    }

    fn read_bit(&mut self) -> (r: Option<u8>)
        requires
            old(self).wf(),
        ensures
            final(self).wf(),
            final(self).data == old(self).data,
            match r {
                Some(b) => old(self).pos() < 8 * old(self).data@.len() && b == bit_at(
                    old(self).data@,
                    old(self).pos(),
                ) && b <= 1 && final(self).pos() == old(self).pos() + 1,
                None => old(self).pos() >= 8 * old(self).data@.len() && final(self).pos() == old(
                    self,
                ).pos(),
            },
    {
        if self.byte >= self.data.len() {
            return None;
        }
        let shift: u8 = 7 - self.bit;
        let current: u8 = self.data[self.byte];
        let b: u8 = (current >> shift) & 1;
        assert((current >> shift) & 1 <= 1) by (bit_vector);
        if self.bit == 7 {
            self.bit = 0;
            self.byte = self.byte + 1;
        } else {
            self.bit = self.bit + 1;
        }
        Some(b)
    }

    fn read_bits(&mut self, count: u8) -> (r: Option<u32>)
        requires
            old(self).wf(),
            count <= 32,
        ensures
            final(self).wf(),
            final(self).data == old(self).data,
            match r {
                Some(v) => old(self).pos() + count <= 8 * old(self).data@.len() && v == bits_at(
                    old(self).data@,
                    old(self).pos(),
                    count as nat,
                ) && v < pow2(count as nat) && final(self).pos() == old(self).pos() + count,
                None => old(self).pos() + count > 8 * old(self).data@.len(),
            },
    {
        let mut value: u32 = 0;
        let mut i: u8 = 0;
        proof {
            vstd::arithmetic::power2::lemma2_to64();
        }
        while i < count
            invariant
                i <= count <= 32,
                self.wf(),
                self.data == old(self).data,
                self.pos() == old(self).pos() + i,
                self.pos() <= 8 * self.data@.len(),
                value == bits_at(old(self).data@, old(self).pos(), i as nat),
                value < pow2(i as nat),
            decreases count - i,
        {
            match self.read_bit() {
                Some(b) => {
                    proof {
                        vstd::arithmetic::power2::lemma_pow2_unfold((i + 1) as nat);
                        vstd::arithmetic::power2::lemma2_to64();
                        if i < 31 {
                            vstd::arithmetic::power2::lemma_pow2_strictly_increases(
                                (i + 1) as nat,
                                32,
                            );
                        }
                    }
                    value = value * 2 + b as u32;
                },
                None => {
                    return None;
                },
            }
            i = i + 1;
        }
        Some(value)
    }

    fn read_ue(&mut self) -> (r: Option<u32>)
        requires
            old(self).wf(),
        ensures
            final(self).wf(),
            final(self).data == old(self).data,
            match r {
                Some(v) => ue_at(old(self).data@, old(self).pos()) == Some(
                    (v as int, final(self).pos()),
                ),
                None => ue_at(old(self).data@, old(self).pos()) is None,
            },
    {
        reveal(ue_at);
        let mut zeros: u8 = 0;
        let ghost start = self.pos();
        loop
            invariant_except_break
                self.pos() == start + zeros,
                zeros_at(self.data@, start) == zeros + zeros_at(self.data@, start + zeros),
            invariant
                zeros <= 31,
                self.wf(),
                self.data == old(self).data,
                start == old(self).pos(),
            ensures
                zeros_at(self.data@, start) == zeros,
                self.pos() == start + zeros + 1,
                start + zeros < 8 * self.data@.len(),
            decreases 8 * self.data@.len() - self.pos(),
        {
            reveal(ue_at);
            match self.read_bit() {
                None => {
                    return None;
                },
                Some(b) => {
                    if b != 0 {
                        break;
                    }
                },
            }
            zeros = zeros + 1;
            if zeros > 31 {
                return None;
            }
        }
        if zeros == 0 {
            proof {
                vstd::arithmetic::power2::lemma2_to64();
            }
            return Some(0);
        }
        match self.read_bits(zeros) {
            None => None,
            Some(suffix) => {
                proof {
                    vstd::arithmetic::power2::lemma2_to64();
                    if zeros < 31 {
                        vstd::arithmetic::power2::lemma_pow2_strictly_increases(zeros as nat, 31);
                    }
                    vstd::bits::lemma_u32_shl_is_mul(1, zeros as u32);
                }
                Some((1u32 << (zeros as u32)) - 1 + suffix)
            },
        }
    }

    fn read_se(&mut self) -> (r: Option<i32>)
        requires
            old(self).wf(),
        ensures
            final(self).wf(),
            final(self).data == old(self).data,
            match r {
                Some(v) => ue_at(old(self).data@, old(self).pos()) matches Some(code) && v
                    == se_value(code.0) && final(self).pos() == code.1,
                None => ue_at(old(self).data@, old(self).pos()) is None,
            },
    {
        match self.read_ue() {
            None => None,
            Some(ue) => {
                let k: i64 = ue as i64;
                let signed: i64 = if ue % 2 == 0 {
                    if ue < 0x8000_0000 {
                        -((ue / 2) as i64)
                    } else {
                        ((0x1_0000_0000 - ue as u64) / 2) as i64
                    }
                } else if ue < 0x7FFF_FFFF {
                    ((ue as u64 + 1) / 2) as i64
                } else {
                    -(((0x1_0000_0000 - (ue as u64 + 1)) / 2) as i64)
                };
                assert(signed == se_value(k as int));
                Some(signed as i32)
            },
        }
    }
}

/// The position behind a one-bit field at `c`; `None` past the end or where
/// an earlier field was cut short.
pub open spec fn after_bit(data: Seq<u8>, c: Option<int>) -> Option<int> {
    match c {
        Some(pos) if pos < 8 * data.len() => Some(pos + 1),
        _ => None,
    }
}

/// The position behind an Exp-Golomb code at `c`.
pub open spec fn after_ue(data: Seq<u8>, c: Option<int>) -> Option<int> {
    match c {
        Some(pos) => match ue_at(data, pos) {
            Some(code) => Some(code.1),
            None => None,
        },
        None => None,
    }
}

/// The position behind `n` consecutive Exp-Golomb codes.
pub open spec fn after_ues(data: Seq<u8>, c: Option<int>, n: nat) -> Option<int>
    decreases n,
{
    if n == 0 {
        c
    } else {
        after_ue(data, after_ues(data, c, (n - 1) as nat))
    }
}

/// The position behind the remaining `n` entries of a scaling list whose last
/// scale was `last`.  Entries after a scale of zero take no bits.
pub open spec fn after_scales(data: Seq<u8>, c: Option<int>, last: int, n: nat) -> Option<int>
    decreases n,
{
    if n == 0 {
        c
    } else if last == 0 {
        c
    } else {
        match c {
            None => None,
            Some(pos) => match ue_at(data, pos) {
                None => None,
                Some(code) => after_scales(
                    data,
                    Some(code.1),
                    (last + se_value(code.0)) % 256,
                    (n - 1) as nat,
                ),
            },
        }
    }
}

/// The position behind the scaling lists number `i` up to `count`, each with a
/// presence flag; the first six have 16 entries, the others 64.
pub open spec fn after_scaling_lists(data: Seq<u8>, c: Option<int>, i: nat, count: nat) -> Option<
    int,
>
    decreases count - i,
{
    if i >= count {
        c
    } else {
        let flag = after_bit(data, c);
        match flag {
            None => None,
            Some(pos) => after_scaling_lists(
                data,
                if bit_at(data, pos - 1) == 1 {
                    after_scales(
                        data,
                        flag,
                        8,
                        if i < 6 {
                            16
                        } else {
                            64
                        },
                    )
                } else {
                    flag
                },
                i + 1,
                count,
            ),
        }
    }
}

/// Whether sequence parameter sets of this profile carry the chroma and
/// scaling fields.
pub open spec fn is_high_profile(profile: u8) -> bool {
    profile == 100 || profile == 110 || profile == 122 || profile == 244 || profile == 44
        || profile == 83 || profile == 86 || profile == 118 || profile == 128 || profile == 138
        || profile == 139 || profile == 134 || profile == 135
}

/// The position behind the high profile fields at `c`.
pub open spec fn after_high_profile(data: Seq<u8>, c: Option<int>) -> Option<int> {
    match c {
        None => None,
        Some(start) => match ue_at(data, start) {
            None => None,
            Some((chroma, end)) => {
                let separate = if chroma == 3 {
                    after_bit(data, Some(end))
                } else {
                    Some(end)
                };
                let depths = after_ue(data, after_ue(data, separate));
                match after_bit(data, after_bit(data, depths)) {
                    None => None,
                    Some(pos) => if bit_at(data, pos - 1) == 1 {
                        after_scaling_lists(
                            data,
                            Some(pos),
                            0,
                            if chroma != 3 {
                                8
                            } else {
                                12
                            },
                        )
                    } else {
                        Some(pos)
                    },
                }
            },
        },
    }
}

/// The position behind the picture order count fields at `c`.
pub open spec fn after_picture_order(data: Seq<u8>, c: Option<int>) -> Option<int> {
    match c {
        None => None,
        Some(start) => match ue_at(data, start) {
            None => None,
            Some((kind, end)) => if kind == 0 {
                after_ue(data, Some(end))
            } else if kind == 1 {
                match after_ue(data, after_ue(data, after_bit(data, Some(end)))) {
                    None => None,
                    Some(pos) => match ue_at(data, pos) {
                        None => None,
                        Some((cycles, body)) => after_ues(data, Some(body), cycles as nat),
                    },
                }
            } else if kind == 2 {
                Some(end)
            } else {
                None
            },
        },
    }
}

/// The position of the flag that says whether all pictures are whole frames.
pub open spec fn frame_flag_position(rbsp: Seq<u8>) -> Option<int> {
    if rbsp.len() < 3 {
        None
    } else {
        let id = after_ue(rbsp, Some(24));
        let profile = if is_high_profile(rbsp[0]) {
            after_high_profile(rbsp, id)
        } else {
            id
        };
        let order = after_picture_order(rbsp, after_ue(rbsp, profile));
        after_ue(rbsp, after_ue(rbsp, after_bit(rbsp, after_ue(rbsp, order))))
    }
}

/// The scan type that a sequence parameter set declares; `None` where it is
/// malformed or cut short.
pub open spec fn sps_scan_type(rbsp: Seq<u8>) -> Option<ScanType> {
    match after_bit(rbsp, frame_flag_position(rbsp)) {
        None => None,
        Some(pos) => if bit_at(rbsp, pos - 1) == 0 {
            if pos < 8 * rbsp.len() {
                Some(ScanType::Interlaced)
            } else {
                None
            }
        } else {
            Some(ScanType::Progressive)
        },
    }
}

#[verifier::spinoff_prover]
#[verifier::rlimit(60)]
fn skip_scaling_list(br: &mut BitReader<'_>, is_16x16: bool) -> (r: Option<()>)
    requires
        old(br).wf(),
    ensures
        final(br).wf(),
        final(br).data == old(br).data,
        ({
            let end = after_scales(
                old(br).data@,
                Some(old(br).pos()),
                8,
                if is_16x16 {
                    16
                } else {
                    64
                },
            );
            match r {
                Some(_) => end == Some(final(br).pos()),
                None => end is None,
            }
        }),
{
    let size: u32 = if is_16x16 {
        16
    } else {
        64
    };
    let mut last: u32 = 8;
    let mut i: u32 = 0;
    let ghost total = after_scales(br.data@, Some(br.pos()), 8, size as nat);
    while i < size
        invariant
            i <= size <= 64,
            br.wf(),
            br.data == old(br).data,
            last < 256,
            total == after_scales(old(br).data@, Some(old(br).pos()), 8, size as nat),
            size == if is_16x16 {
                16u32
            } else {
                64u32
            },
            after_scales(br.data@, Some(br.pos()), last as int, (size - i) as nat) == total,
        decreases size - i,
    {
        if last != 0 {
            match br.read_se() {
                None => {
                    return None;
                },
                Some(delta) => {
                    // A multiple of 256 large enough to keep the sum positive.
                    let sum: i64 = last as i64 + delta as i64 + 0x1_0000_0000;
                    last = (sum as u64 % 256) as u32;
                },
            }
        } else {
            assert(after_scales(br.data@, Some(br.pos()), 0, (size - i - 1) as nat) == Some(
                br.pos(),
            ));
        }
        i = i + 1;
    }
    Some(())
}

/// Reads `n` Exp-Golomb codes and drops them.
fn skip_ues(br: &mut BitReader<'_>, n: u32) -> (r: Option<()>)
    requires
        old(br).wf(),
    ensures
        final(br).wf(),
        final(br).data == old(br).data,
        ({
            let end = after_ues(old(br).data@, Some(old(br).pos()), n as nat);
            match r {
                Some(_) => end == Some(final(br).pos()),
                None => end is None,
            }
        }),
{
    let mut i: u32 = 0;
    let ghost start = Some(br.pos());
    while i < n
        invariant
            i <= n,
            br.wf(),
            br.data == old(br).data,
            start == Some(old(br).pos()),
            after_ues(br.data@, start, i as nat) == Some(br.pos()),
        decreases n - i,
    {
        if br.read_ue().is_none() {
            proof {
                lemma_ues_stay_cut(br.data@, start, (i + 1) as nat, n as nat);
            }
            return None;
        }
        i = i + 1;
    }
    Some(())
}

/// Once a code is cut short, so is everything behind it.
proof fn lemma_ues_stay_cut(data: Seq<u8>, c: Option<int>, i: nat, n: nat)
    requires
        i <= n,
        after_ues(data, c, i) is None,
    ensures
        after_ues(data, c, n) is None,
    decreases n,
{
    if i < n {
        lemma_ues_stay_cut(data, c, i, (n - 1) as nat);
    }
}

fn skip_scaling_lists(br: &mut BitReader<'_>, count: u32) -> (r: Option<()>)
    requires
        old(br).wf(),
    ensures
        final(br).wf(),
        final(br).data == old(br).data,
        ({
            let end = after_scaling_lists(old(br).data@, Some(old(br).pos()), 0, count as nat);
            match r {
                Some(_) => end == Some(final(br).pos()),
                None => end is None,
            }
        }),
{
    let ghost total = after_scaling_lists(br.data@, Some(br.pos()), 0, count as nat);
    let mut i: u32 = 0;
    while i < count
        invariant
            i <= count,
            br.wf(),
            br.data == old(br).data,
            total == after_scaling_lists(old(br).data@, Some(old(br).pos()), 0, count as nat),
            after_scaling_lists(br.data@, Some(br.pos()), i as nat, count as nat) == total,
        decreases count - i,
    {
        let ghost pos = br.pos();
        match br.read_bit() {
            None => {
                return None;
            },
            Some(present) => {
                if present == 1 {
                    if skip_scaling_list(br, i < 6).is_none() {
                        proof {
                            lemma_lists_stay_cut(br.data@, (i + 1) as nat, count as nat);
                        }
                        return None;
                    }
                }
            },
        }
        i = i + 1;
    }
    Some(())
}

proof fn lemma_lists_stay_cut(data: Seq<u8>, i: nat, count: nat)
    ensures
        after_scaling_lists(data, None, i, count) is None,
{
}

/// Reads the scan type that a sequence parameter set declares.
pub fn parse_sps_scan_type(rbsp: &[u8]) -> (r: Option<ScanType>)
    ensures
        r == sps_scan_type(rbsp@),
{
    let mut br = BitReader::new(rbsp);
    // Profile, constraint flags and level.
    if br.read_bits(8).is_none() || br.read_bits(8).is_none() || br.read_bits(8).is_none() {
        return None;
    }
    let profile_idc: u8 = rbsp[0];
    br.read_ue()?;
    if profile_idc == 100 || profile_idc == 110 || profile_idc == 122 || profile_idc == 244
        || profile_idc == 44 || profile_idc == 83 || profile_idc == 86 || profile_idc == 118
        || profile_idc == 128 || profile_idc == 138 || profile_idc == 139 || profile_idc == 134
        || profile_idc == 135 {
        skip_high_profile(&mut br)?;
    }
    // Frame number width.
    br.read_ue()?;
    skip_picture_order(&mut br)?;
    // Reference frames.
    br.read_ue()?;
    // Whether gaps in the frame numbers are allowed.
    br.read_bit()?;
    // Width and height.
    br.read_ue()?;
    br.read_ue()?;
    let frame_mbs_only_flag: u8 = br.read_bit()?;
    if frame_mbs_only_flag == 0 {
        // Adaptive frame/field coding.
        br.read_bit()?;
        return Some(ScanType::Interlaced);
    }
    Some(ScanType::Progressive)
}

fn skip_high_profile(br: &mut BitReader<'_>) -> (r: Option<()>)
    requires
        old(br).wf(),
    ensures
        final(br).wf(),
        final(br).data == old(br).data,
        ({
            let end = after_high_profile(old(br).data@, Some(old(br).pos()));
            match r {
                Some(_) => end == Some(final(br).pos()),
                None => end is None,
            }
        }),
{
    let chroma_format_idc: u32 = br.read_ue()?;
    if chroma_format_idc == 3 {
        // Separate colour planes.
        br.read_bit()?;
    }
    // Luma and chroma bit depth.
    br.read_ue()?;
    br.read_ue()?;
    // Transform bypass.
    br.read_bit()?;
    let scaling_matrix: u8 = br.read_bit()?;
    if scaling_matrix == 1 {
        let count: u32 = if chroma_format_idc != 3 {
            8
        } else {
            12
        };
        skip_scaling_lists(br, count)?;
    }
    Some(())
}

fn skip_picture_order(br: &mut BitReader<'_>) -> (r: Option<()>)
    requires
        old(br).wf(),
    ensures
        final(br).wf(),
        final(br).data == old(br).data,
        ({
            let end = after_picture_order(old(br).data@, Some(old(br).pos()));
            match r {
                Some(_) => end == Some(final(br).pos()),
                None => end is None,
            }
        }),
{
    let pic_order_cnt_type: u32 = br.read_ue()?;
    match pic_order_cnt_type {
        0 => {
            br.read_ue()?;
        },
        1 => {
            br.read_bit()?;
            // Offsets of non-reference pictures and of the bottom field.
            br.read_ue()?;
            br.read_ue()?;
            let cycles: u32 = br.read_ue()?;
            skip_ues(br, cycles)?;
        },
        2 => {},
        _ => {
            return None;
        },
    }
    Some(())
}

/// Whether a start code, with three or four bytes, stands at `i`.
pub open spec fn start_code_at(data: Seq<u8>, i: int) -> bool {
    &&& i + 2 < data.len()
    &&& data[i] == 0
    &&& data[i + 1] == 0
    &&& data[i + 2] == 1 || (i + 3 < data.len() && data[i + 2] == 0 && data[i + 3] == 1)
}

/// The first start code at or behind `from`.
pub open spec fn next_start_code(data: Seq<u8>, from: int) -> Option<int>
    decreases data.len() - from,
{
    if from + 2 >= data.len() {
        None
    } else if start_code_at(data, from) {
        Some(from)
    } else {
        next_start_code(data, from + 1)
    }
}

/// The first byte behind the start code at `i`.
pub open spec fn behind_start_code(data: Seq<u8>, i: int) -> int {
    if data[i + 2] == 1 {
        i + 3
    } else {
        i + 4
    }
}

/// The next start code lies where it is said to.
pub proof fn lemma_next_start_code_bounds(data: Seq<u8>, from: int)
    requires
        0 <= from,
    ensures
        next_start_code(data, from) matches Some(i) ==> from <= i && start_code_at(data, i),
    decreases data.len() - from,
{
    if from + 2 < data.len() && !start_code_at(data, from) {
        lemma_next_start_code_bounds(data, from + 1);
    }
}

/// Begin and end of the NAL units behind `pos`: what lies between one start
/// code and the next, empty ones left out.
pub open spec fn nal_ranges(data: Seq<u8>, pos: int) -> Seq<(int, int)>
    decreases data.len() - pos,
{
    if pos < 0 || pos + 3 >= data.len() {
        Seq::empty()
    } else {
        match next_start_code(data, pos) {
            None => Seq::empty(),
            Some(code) => {
                let begin = behind_start_code(data, code);
                proof {
                    lemma_next_start_code_bounds(data, pos);
                    lemma_next_start_code_bounds(data, begin);
                }
                if begin >= data.len() {
                    Seq::empty()
                } else {
                    let end = match next_start_code(data, begin) {
                        Some(e) => e,
                        None => data.len() as int,
                    };
                    if end == begin {
                        nal_ranges(data, end)
                    } else {
                        seq![(begin, end)] + nal_ranges(data, end)
                    }
                }
            },
        }
    }
}

/// Finds the first start code at or behind `from`.
pub fn find_start_code(data: &[u8], from: usize) -> (r: Option<usize>)
    ensures
        match r {
            Some(i) => next_start_code(data@, from as int) == Some(i as int) && from <= i
                && start_code_at(data@, i as int),
            None => next_start_code(data@, from as int) is None,
        },
{
    let mut i: usize = from;
    while i < data.len() && data.len() - i > 2
        invariant
            from <= i,
            next_start_code(data@, from as int) == next_start_code(data@, i as int),
        decreases data.len() - i,
    {
        if data[i] == 0 && data[i + 1] == 0 {
            if data[i + 2] == 1 {
                return Some(i);
            }
            if data.len() - i > 3 && data[i + 2] == 0 && data[i + 3] == 1 {
                return Some(i);
            }
        }
        i = i + 1;
    }
    None
}

/// Walks the NAL units of an H.264 byte stream.
pub struct H264NalIter<'a> {
    data: &'a [u8],
    pos: usize,
}

/// A walk over the NAL units of `data`.
pub fn iter_h264_nal_units<'a>(data: &'a [u8]) -> (r: H264NalIter<'a>)
    ensures
        r.stream() == data@,
        r.remaining() == nal_ranges(data@, 0),
{
    H264NalIter { data, pos: 0 }
}

impl<'a> H264NalIter<'a> {
    pub closed spec fn stream(&self) -> Seq<u8> {
        self.data@
    }

    /// The units still to come.
    pub closed spec fn remaining(&self) -> Seq<(int, int)> {
        nal_ranges(self.data@, self.pos as int)
    }

    /// The next unit, without its start code.
    pub fn next(&mut self) -> (r: Option<&'a [u8]>)
        ensures
            final(self).stream() == old(self).stream(),
            match r {
                Some(nal) => {
                    &&& old(self).remaining().len() > 0
                    &&& final(self).remaining() == old(self).remaining().drop_first()
                    &&& 0 <= old(self).remaining()[0].0 < old(self).remaining()[0].1 <= old(
                        self,
                    ).stream().len()
                    &&& nal@ == old(self).stream().subrange(
                        old(self).remaining()[0].0,
                        old(self).remaining()[0].1,
                    )
                },
                None => old(self).remaining().len() == 0 && final(self).remaining().len() == 0,
            },
    {
        let ghost all = self.remaining();
        while self.pos < self.data.len() && self.data.len() - self.pos > 3
            invariant
                self.data == old(self).data,
                all == old(self).remaining(),
                nal_ranges(self.data@, self.pos as int) == all,
            decreases self.data.len() - self.pos,
        {
            let start: usize = match find_start_code(self.data, self.pos) {
                Some(i) => i,
                None => {
                    return None;
                },
            };
            let begin: usize = if self.data[start + 2] == 1 {
                start + 3
            } else {
                start + 4
            };
            if begin >= self.data.len() {
                self.pos = begin;
                return None;
            }
            let end: usize = match find_start_code(self.data, begin) {
                Some(e) => e,
                None => self.data.len(),
            };
            self.pos = end;
            if end > begin {
                let nal = vstd::slice::slice_subrange(self.data, begin, end);
                assert(all == seq![(begin as int, end as int)] + nal_ranges(
                    self.data@,
                    end as int,
                ));
                assert(all.drop_first() =~= nal_ranges(self.data@, end as int));
                return Some(nal);
            }
        }
        None
    }
}

/// The payload `s` without its emulation prevention bytes: every `00 00 03`
/// stands for `00 00`.
pub open spec fn unescaped(s: Seq<u8>) -> Seq<u8>
    decreases s.len(),
{
    if s.len() == 0 {
        s
    } else if s.len() >= 3 && s[0] == 0 && s[1] == 0 && s[2] == 3 {
        seq![0u8, 0u8] + unescaped(s.skip(3))
    } else {
        seq![s[0]] + unescaped(s.skip(1))
    }
}

/// Drops the emulation prevention bytes of a NAL unit payload.
pub fn remove_emulation_prevention_bytes(rbsp: &[u8]) -> (r: Vec<u8>)
    ensures
        r@ == unescaped(rbsp@),
{
    let mut out: Vec<u8> = Vec::with_capacity(rbsp.len());
    let mut i: usize = 0;
    assert(rbsp@.skip(0) =~= rbsp@);
    while i < rbsp.len()
        invariant
            i <= rbsp.len(),
            out@ + unescaped(rbsp@.skip(i as int)) == unescaped(rbsp@),
        decreases rbsp.len() - i,
    {
        let ghost rest = rbsp@.skip(i as int);
        if rbsp.len() - i > 2 && rbsp[i] == 0 && rbsp[i + 1] == 0 && rbsp[i + 2] == 3 {
            assert(rest.skip(3) =~= rbsp@.skip(i + 3));
            let ghost before = out@;
            out.push(0);
            out.push(0);
            i = i + 3;
            assert(out@ + unescaped(rbsp@.skip(i as int)) =~= before + unescaped(rest));
        } else {
            assert(rest.skip(1) =~= rbsp@.skip(i + 1));
            let ghost before = out@;
            out.push(rbsp[i]);
            i = i + 1;
            assert(out@ + unescaped(rbsp@.skip(i as int)) =~= before + unescaped(rest));
        }
    }
    assert(rbsp@.skip(i as int) =~= Seq::<u8>::empty());
    assert(out@ =~= unescaped(rbsp@));
    out
}

/// Whether the NAL unit that begins with this byte is a sequence parameter set.
pub open spec fn is_sps(first: u8) -> bool {
    first % 32 == 7
}

/// The scan type of the first sequence parameter set among `units`.
pub open spec fn first_sps_scan_type(data: Seq<u8>, units: Seq<(int, int)>) -> Option<ScanType>
    decreases units.len(),
{
    if units.len() == 0 {
        None
    } else if is_sps(data[units[0].0]) {
        sps_scan_type(unescaped(data.subrange(units[0].0 + 1, units[0].1)))
    } else {
        first_sps_scan_type(data, units.drop_first())
    }
}

/// The scan type that an H.264 byte stream declares in its first sequence
/// parameter set; `None` without one, or where it is malformed.
pub open spec fn h264_scan_type(data: Seq<u8>) -> Option<ScanType> {
    first_sps_scan_type(data, nal_ranges(data, 0))
}

/// Finds the scan type that an H.264 byte stream declares.
pub fn detect_h264_scan_type(data: &[u8]) -> (r: Option<ScanType>)
    ensures
        r == h264_scan_type(data@),
{
    let mut units = iter_h264_nal_units(data);
    loop
        invariant
            units.stream() == data@,
            first_sps_scan_type(data@, units.remaining()) == h264_scan_type(data@),
        decreases units.remaining().len(),
    {
        let ghost ranges = units.remaining();
        match units.next() {
            None => {
                return None;
            },
            Some(nal) => {
                let first: u8 = nal[0];
                assert(first == data@[ranges[0].0]);
                assert(first & 0x1F == first % 32) by (bit_vector);
                if first & 0x1F == 7 {
                    let body = vstd::slice::slice_subrange(nal, 1, nal.len());
                    assert(body@ =~= data@.subrange(ranges[0].0 + 1, ranges[0].1));
                    let rbsp = remove_emulation_prevention_bytes(body);
                    return parse_sps_scan_type(rbsp.as_slice());
                }
            },
        }
    }
}

/// The scan type after one more packet and frame of the stream.
pub open spec fn next_scan_type(
    current: ScanType,
    mode: DeinterlaceMode,
    is_h264: bool,
    pkt_bytes: Seq<u8>,
    frame_interlaced: bool,
    field_order: int,
) -> ScanType {
    if current != ScanType::Unknown {
        current
    } else {
        match mode {
            DeinterlaceMode::Force => ScanType::Interlaced,
            DeinterlaceMode::Off => ScanType::Unknown,
            DeinterlaceMode::Auto => if frame_interlaced || field_order
                >= AV_FIELD_INTERLACED_MIN {
                ScanType::Interlaced
            } else if is_h264 && h264_scan_type(pkt_bytes) is Some {
                h264_scan_type(pkt_bytes)->0
            } else {
                ScanType::Unknown
            },
        }
    }
}

/// Takes one more packet and frame into account.  A settled scan type stays;
/// a progressive field order alone settles nothing, because decoders report it
/// before they have seen a parameter set.
pub fn update_scan_type(
    current: ScanType,
    mode: DeinterlaceMode,
    is_h264: bool,
    pkt_bytes: &[u8],
    frame_interlaced: bool,
    field_order: i32,
) -> (r: ScanType)
    ensures
        r == next_scan_type(
            current,
            mode,
            is_h264,
            pkt_bytes@,
            frame_interlaced,
            field_order as int,
        ),
{
    if current.is_resolved() {
        return current;
    }
    match mode {
        DeinterlaceMode::Force => {
            return ScanType::Interlaced;
        },
        DeinterlaceMode::Off => {
            return current;
        },
        DeinterlaceMode::Auto => {},
    }
    if frame_interlaced {
        return ScanType::Interlaced;
    }
    if field_order >= AV_FIELD_INTERLACED_MIN {
        return ScanType::Interlaced;
    }
    if is_h264 {
        if let Some(detected) = detect_h264_scan_type(pkt_bytes) {
            if detected.is_resolved() {
                return detected;
            }
        }
    }
    current
}

/// A scan type once settled is never unsettled or changed.
pub proof fn law_settled_scan_type_stays(
    current: ScanType,
    mode: DeinterlaceMode,
    is_h264: bool,
    pkt_bytes: Seq<u8>,
    frame_interlaced: bool,
    field_order: int,
)
    requires
        current != ScanType::Unknown,
    ensures
        next_scan_type(current, mode, is_h264, pkt_bytes, frame_interlaced, field_order)
            == current,
{
}

/// Only a parameter set settles a stream as progressive.
pub proof fn law_only_a_parameter_set_settles_progressive(
    mode: DeinterlaceMode,
    is_h264: bool,
    pkt_bytes: Seq<u8>,
    frame_interlaced: bool,
    field_order: int,
)
    ensures
        next_scan_type(
            ScanType::Unknown,
            mode,
            is_h264,
            pkt_bytes,
            frame_interlaced,
            field_order,
        ) == ScanType::Progressive ==> is_h264 && h264_scan_type(pkt_bytes) == Some(
            ScanType::Progressive,
        ),
{
}

/// What is read within a sequence is read the same in a longer one.
proof fn lemma_bits_in_prefix(p: Seq<u8>, q: Seq<u8>, pos: int, n: nat)
    requires
        p.is_prefix_of(q),
        0 <= pos,
        pos + n <= 8 * p.len(),
    ensures
        bits_at(p, pos, n) == bits_at(q, pos, n),
    decreases n,
{
    if n > 0 {
        lemma_bits_in_prefix(p, q, pos, (n - 1) as nat);
        assert(p[(pos + n - 1) / 8] == q[(pos + n - 1) / 8]);
    }
}

proof fn lemma_zeros_in_prefix(p: Seq<u8>, q: Seq<u8>, pos: int)
    requires
        p.is_prefix_of(q),
        0 <= pos,
        pos + zeros_at(p, pos) < 8 * p.len(),
    ensures
        zeros_at(p, pos) == zeros_at(q, pos),
    decreases 8 * p.len() - pos,
{
    if pos < 8 * p.len() {
        assert(p[pos / 8] == q[pos / 8]);
        if bit_at(p, pos) == 0 {
            lemma_zeros_in_prefix(p, q, pos + 1);
        }
    }
}

proof fn lemma_ue_in_prefix(p: Seq<u8>, q: Seq<u8>, pos: int)
    requires
        p.is_prefix_of(q),
        0 <= pos,
        ue_at(p, pos) is Some,
    ensures
        ue_at(q, pos) == ue_at(p, pos),
        (ue_at(p, pos)->0).1 > pos,
{
    reveal(ue_at);
    lemma_zeros_in_prefix(p, q, pos);
    lemma_bits_in_prefix(p, q, pos + zeros_at(p, pos) + 1, zeros_at(p, pos));
}

/// A position, if there is one, is not before the beginning.
spec fn is_place(c: Option<int>) -> bool {
    c is Some ==> c->0 >= 0
}

proof fn lemma_after_bit_in_prefix(p: Seq<u8>, q: Seq<u8>, c: Option<int>)
    requires
        p.is_prefix_of(q),
        is_place(c),
    ensures
        is_place(after_bit(p, c)),
        after_bit(p, c) is Some ==> after_bit(q, c) == after_bit(p, c) && bit_at(
            p,
            after_bit(p, c)->0 - 1,
        ) == bit_at(q, after_bit(p, c)->0 - 1),
{
    if after_bit(p, c) is Some {
        let pos = after_bit(p, c)->0 - 1;
        assert(p[pos / 8] == q[pos / 8]);
    }
}

proof fn lemma_after_ue_in_prefix(p: Seq<u8>, q: Seq<u8>, c: Option<int>)
    requires
        p.is_prefix_of(q),
        is_place(c),
    ensures
        is_place(after_ue(p, c)),
        after_ue(p, c) is Some ==> after_ue(q, c) == after_ue(p, c),
{
    if after_ue(p, c) is Some {
        lemma_ue_in_prefix(p, q, c->0);
    }
}

proof fn lemma_after_ues_in_prefix(p: Seq<u8>, q: Seq<u8>, c: Option<int>, n: nat)
    requires
        p.is_prefix_of(q),
        is_place(c),
    ensures
        is_place(after_ues(p, c, n)),
        after_ues(p, c, n) is Some ==> after_ues(q, c, n) == after_ues(p, c, n),
    decreases n,
{
    if n > 0 {
        lemma_after_ues_in_prefix(p, q, c, (n - 1) as nat);
        lemma_after_ue_in_prefix(p, q, after_ues(p, c, (n - 1) as nat));
    }
}

proof fn lemma_after_scales_in_prefix(p: Seq<u8>, q: Seq<u8>, c: Option<int>, last: int, n: nat)
    requires
        p.is_prefix_of(q),
        is_place(c),
    ensures
        is_place(after_scales(p, c, last, n)),
        after_scales(p, c, last, n) is Some ==> after_scales(q, c, last, n) == after_scales(
            p,
            c,
            last,
            n,
        ),
    decreases n,
{
    if n > 0 && last != 0 && c is Some && ue_at(p, c->0) is Some {
        lemma_ue_in_prefix(p, q, c->0);
        let code = ue_at(p, c->0)->0;
        lemma_after_scales_in_prefix(
            p,
            q,
            Some(code.1),
            (last + se_value(code.0)) % 256,
            (n - 1) as nat,
        );
    }
}

proof fn lemma_after_scaling_lists_in_prefix(
    p: Seq<u8>,
    q: Seq<u8>,
    c: Option<int>,
    i: nat,
    count: nat,
)
    requires
        p.is_prefix_of(q),
        is_place(c),
    ensures
        is_place(after_scaling_lists(p, c, i, count)),
        after_scaling_lists(p, c, i, count) is Some ==> after_scaling_lists(q, c, i, count)
            == after_scaling_lists(p, c, i, count),
    decreases count - i,
{
    if i < count {
        lemma_after_bit_in_prefix(p, q, c);
        let flag = after_bit(p, c);
        if flag is Some {
            let entries: nat = if i < 6 {
                16
            } else {
                64
            };
            lemma_after_scales_in_prefix(p, q, flag, 8, entries);
            let next = if bit_at(p, flag->0 - 1) == 1 {
                after_scales(p, flag, 8, entries)
            } else {
                flag
            };
            lemma_after_scaling_lists_in_prefix(p, q, next, i + 1, count);
        }
    }
}

proof fn lemma_after_high_profile_in_prefix(p: Seq<u8>, q: Seq<u8>, c: Option<int>)
    requires
        p.is_prefix_of(q),
        is_place(c),
    ensures
        is_place(after_high_profile(p, c)),
        after_high_profile(p, c) is Some ==> after_high_profile(q, c) == after_high_profile(p, c),
{
    if c is Some && ue_at(p, c->0) is Some {
        lemma_ue_in_prefix(p, q, c->0);
        let (chroma, end) = ue_at(p, c->0)->0;
        lemma_after_bit_in_prefix(p, q, Some(end));
        let separate = if chroma == 3 {
            after_bit(p, Some(end))
        } else {
            Some(end)
        };
        lemma_after_ue_in_prefix(p, q, separate);
        lemma_after_ue_in_prefix(p, q, after_ue(p, separate));
        let depths = after_ue(p, after_ue(p, separate));
        lemma_after_bit_in_prefix(p, q, depths);
        lemma_after_bit_in_prefix(p, q, after_bit(p, depths));
        let flags = after_bit(p, after_bit(p, depths));
        lemma_after_scaling_lists_in_prefix(
            p,
            q,
            flags,
            0,
            if chroma != 3 {
                8
            } else {
                12
            },
        );
    }
}

proof fn lemma_after_picture_order_in_prefix(p: Seq<u8>, q: Seq<u8>, c: Option<int>)
    requires
        p.is_prefix_of(q),
        is_place(c),
    ensures
        is_place(after_picture_order(p, c)),
        after_picture_order(p, c) is Some ==> after_picture_order(q, c) == after_picture_order(
            p,
            c,
        ),
{
    if c is Some && ue_at(p, c->0) is Some {
        lemma_ue_in_prefix(p, q, c->0);
        let (kind, end) = ue_at(p, c->0)->0;
        lemma_after_ue_in_prefix(p, q, Some(end));
        let flag = after_bit(p, Some(end));
        lemma_after_bit_in_prefix(p, q, Some(end));
        lemma_after_ue_in_prefix(p, q, flag);
        lemma_after_ue_in_prefix(p, q, after_ue(p, flag));
        let offsets = after_ue(p, after_ue(p, flag));
        if kind == 1 && offsets is Some && ue_at(p, offsets->0) is Some {
            lemma_ue_in_prefix(p, q, offsets->0);
            let (cycles, body) = ue_at(p, offsets->0)->0;
            lemma_after_ues_in_prefix(p, q, Some(body), cycles as nat);
        }
    }
}

/// What a parameter set declares stands by what it begins with: with more
/// bytes behind it, it declares the same.
pub proof fn law_longer_parameter_sets_declare_the_same(rbsp: Seq<u8>, longer: Seq<u8>)
    requires
        rbsp.is_prefix_of(longer),
        sps_scan_type(rbsp) is Some,
    ensures
        sps_scan_type(longer) == sps_scan_type(rbsp),
{
    lemma_flag_position_in_prefix(rbsp, longer);
    lemma_after_bit_in_prefix(rbsp, longer, frame_flag_position(rbsp));
}

proof fn lemma_flag_position_in_prefix(p: Seq<u8>, q: Seq<u8>)
    requires
        p.is_prefix_of(q),
        frame_flag_position(p) is Some,
    ensures
        frame_flag_position(q) == frame_flag_position(p),
        is_place(frame_flag_position(p)),
{
    let id = after_ue(p, Some(24));
    lemma_after_ue_in_prefix(p, q, Some(24));
    lemma_after_high_profile_in_prefix(p, q, id);
    let profile = if is_high_profile(p[0]) {
        after_high_profile(p, id)
    } else {
        id
    };
    lemma_after_ue_in_prefix(p, q, profile);
    let start = after_ue(p, profile);
    lemma_after_picture_order_in_prefix(p, q, start);
    let order = after_picture_order(p, start);
    lemma_after_ue_in_prefix(p, q, order);
    let refs = after_ue(p, order);
    lemma_after_bit_in_prefix(p, q, refs);
    let gaps = after_bit(p, refs);
    lemma_after_ue_in_prefix(p, q, gaps);
    lemma_after_ue_in_prefix(p, q, after_ue(p, gaps));
}

proof fn lemma_unescaped_prefix(a: Seq<u8>, b: Seq<u8>)
    ensures
        unescaped(a).is_prefix_of(unescaped(a + b)),
    decreases a.len(),
{
    let all = a + b;
    if a.len() > 0 {
        if a.len() >= 3 && a[0] == 0 && a[1] == 0 && a[2] == 3 {
            lemma_unescaped_prefix(a.skip(3), b);
            assert(all.skip(3) =~= a.skip(3) + b);
        } else if all.len() >= 3 && all[0] == 0 && all[1] == 0 && all[2] == 3 {
            reveal_with_fuel(unescaped, 4);
            assert(unescaped(a) =~= a);
        } else {
            lemma_unescaped_prefix(a.skip(1), b);
            assert(all.skip(1) =~= a.skip(1) + b);
        }
    }
}

/// No start code begins within `data` and ends behind it.
pub open spec fn no_code_across(data: Seq<u8>, more: Seq<u8>) -> bool {
    forall|i: int|
        0 <= i < data.len() && #[trigger] start_code_at(data + more, i) ==> start_code_at(data, i)
}

proof fn lemma_next_start_code_in_prefix(data: Seq<u8>, more: Seq<u8>, from: int)
    requires
        no_code_across(data, more),
        0 <= from <= data.len(),
    ensures
        match next_start_code(data, from) {
            Some(i) => from <= i && i + 2 < data.len() && start_code_at(data, i)
                && next_start_code(data + more, from) == Some(i) && behind_start_code(
                data + more,
                i,
            ) == behind_start_code(data, i),
            None => match next_start_code(data + more, from) {
                Some(i) => i >= data.len(),
                None => true,
            },
        },
    decreases data.len() - from,
{
    let all = data + more;
    lemma_next_start_code_bounds(all, from);
    if from < data.len() {
        lemma_next_start_code_in_prefix(data, more, from + 1);
        if start_code_at(data, from) {
            assert(start_code_at(all, from));
        }
    }
}

proof fn lemma_first_sps_in_prefix(data: Seq<u8>, more: Seq<u8>, pos: int)
    requires
        no_code_across(data, more),
        0 <= pos,
        first_sps_scan_type(data, nal_ranges(data, pos)) is Some,
    ensures
        first_sps_scan_type(data + more, nal_ranges(data + more, pos)) == first_sps_scan_type(
            data,
            nal_ranges(data, pos),
        ),
    decreases data.len() - pos,
{
    let all = data + more;
    lemma_next_start_code_in_prefix(data, more, pos);
    lemma_next_start_code_bounds(data, pos);
    let code = next_start_code(data, pos)->0;
    let begin = behind_start_code(data, code);
    lemma_next_start_code_in_prefix(data, more, begin);
    lemma_next_start_code_bounds(data, begin);
    lemma_next_start_code_bounds(all, begin);
    let units = nal_ranges(data, pos);
    let all_units = nal_ranges(all, pos);
    match next_start_code(data, begin) {
        Some(end) => {
            if end == begin {
                lemma_first_sps_in_prefix(data, more, end);
            } else {
                assert(units.drop_first() =~= nal_ranges(data, end));
                assert(all_units.drop_first() =~= nal_ranges(all, end));
                assert(data.subrange(begin + 1, end) =~= all.subrange(begin + 1, end));
                if !is_sps(data[begin]) {
                    lemma_first_sps_in_prefix(data, more, end);
                }
            }
        },
        None => {
            let end = data.len() as int;
            assert(units.drop_first() =~= nal_ranges(data, end));
            assert(first_sps_scan_type(data, units.drop_first()) is None);
            let all_end = match next_start_code(all, begin) {
                Some(e) => e,
                None => all.len() as int,
            };
            let unit = data.subrange(begin + 1, end);
            let all_unit = all.subrange(begin + 1, all_end);
            assert(all_unit =~= unit + all.subrange(end, all_end));
            lemma_unescaped_prefix(unit, all.subrange(end, all_end));
            law_longer_parameter_sets_declare_the_same(unescaped(unit), unescaped(all_unit));
        },
    }
}

/// A scan type that was found stays the same with more bytes behind, as long
/// as they do not complete a start code that the bytes before end with.
pub proof fn law_more_bytes_keep_the_scan_type(data: Seq<u8>, more: Seq<u8>)
    requires
        h264_scan_type(data) is Some,
        no_code_across(data, more),
    ensures
        h264_scan_type(data + more) == h264_scan_type(data),
{
    lemma_first_sps_in_prefix(data, more, 0);
}

/// The payload `s` with emulation prevention bytes put in, so that no start
/// code can occur in it.
pub open spec fn escaped(s: Seq<u8>) -> Seq<u8>
    decreases s.len(),
{
    if s.len() == 0 {
        s
    } else if s.len() >= 3 && s[0] == 0 && s[1] == 0 && s[2] <= 3 {
        seq![0u8, 0u8, 3u8] + escaped(s.skip(2))
    } else {
        seq![s[0]] + escaped(s.skip(1))
    }
}

/// Removing emulation prevention bytes gives back what was escaped.
pub proof fn law_unescaping_undoes_escaping(s: Seq<u8>)
    ensures
        unescaped(escaped(s)) == s,
    decreases s.len(),
{
    if s.len() > 0 {
        let e = escaped(s);
        if s.len() >= 3 && s[0] == 0 && s[1] == 0 && s[2] <= 3 {
            law_unescaping_undoes_escaping(s.skip(2));
            assert(e.skip(3) =~= escaped(s.skip(2)));
            assert(unescaped(e) =~= seq![0u8, 0u8] + s.skip(2));
            assert(seq![0u8, 0u8] + s.skip(2) =~= s);
        } else {
            let rest = s.skip(1);
            law_unescaping_undoes_escaping(rest);
            assert(e.skip(1) =~= escaped(rest));
            if e.len() >= 3 && e[0] == 0 && e[1] == 0 && e[2] == 3 {
                assert(escaped(rest)[0] == 0 && escaped(rest)[1] == 3);
                if rest.len() >= 3 && rest[0] == 0 && rest[1] == 0 && rest[2] <= 3 {
                    assert(escaped(rest)[1] == 0);
                } else {
                    let tail = rest.skip(1);
                    assert(escaped(rest) == seq![rest[0]] + escaped(tail));
                    assert(escaped(tail)[0] == 3);
                    assert(tail.len() > 0 && tail[0] == 3);
                    assert(s[2] == 3);
                }
            }
            assert(unescaped(e) =~= seq![s[0]] + rest);
            assert(seq![s[0]] + rest =~= s);
        }
    }
}

/// Whether the bits of `data` from `pos` on begin with those of `code`.
pub open spec fn spells(data: Seq<u8>, pos: int, code: Seq<int>) -> bool {
    &&& 0 <= pos
    &&& pos + code.len() <= 8 * data.len()
    &&& forall|i: int| 0 <= i < code.len() ==> bit_at(data, pos + i) == #[trigger] code[i]
}

/// The binary digits of `n`, the most significant one first.
pub open spec fn binary(n: nat) -> Seq<int>
    decreases n,
{
    if n < 2 {
        seq![n as int]
    } else {
        binary(n / 2).push((n % 2) as int)
    }
}

/// The Exp-Golomb code of `v`: as many zeros as its successor has digits
/// behind the first, then those digits.
pub open spec fn ue_code(v: nat) -> Seq<int> {
    Seq::new((binary(v + 1).len() - 1) as nat, |i: int| 0int) + binary(v + 1)
}

/// The Exp-Golomb code of a signed number: odd codes are positive.
pub open spec fn se_code(d: int) -> Seq<int> {
    ue_code(
        if d > 0 {
            (2 * d - 1) as nat
        } else {
            (-2 * d) as nat
        },
    )
}

/// Codes of `values`, one behind the other.
pub open spec fn ue_codes(values: Seq<nat>) -> Seq<int>
    decreases values.len(),
{
    if values.len() == 0 {
        Seq::empty()
    } else {
        ue_codes(values.drop_last()) + ue_code(values.last())
    }
}

/// A scaling list: its first entries, and whether it stops there, leaving the
/// others to repeat the last one.
pub ghost struct ScalingList {
    pub scales: Seq<int>,
    pub stops: bool,
}

/// Each entry is written as its difference from the one before; the first is
/// counted from 8, and a difference that leads to zero stops the list.
pub open spec fn list_code(list: ScalingList, last: int) -> Seq<int>
    decreases list.scales.len(),
{
    if list.scales.len() == 0 {
        if list.stops {
            se_code(-last)
        } else {
            Seq::empty()
        }
    } else {
        se_code(list.scales[0] - last) + list_code(
            ScalingList { scales: list.scales.drop_first(), ..list },
            list.scales[0],
        )
    }
}

/// The lists from number `i` on, each behind a flag that says whether it is
/// there.
pub open spec fn lists_code(lists: Seq<Option<ScalingList>>, i: nat) -> Seq<int>
    decreases lists.len() - i,
{
    if i >= lists.len() {
        Seq::empty()
    } else {
        (match lists[i as int] {
            Some(list) => seq![1int] + list_code(list, 8),
            None => seq![0int],
        }) + lists_code(lists, i + 1)
    }
}

/// What only sequence parameter sets of the high profiles hold.
pub ghost struct HighFields {
    pub chroma_format: nat,
    /// Whether colour planes are coded separately; written for format 3 only.
    pub separate_planes: int,
    pub luma_depth: nat,
    pub chroma_depth: nat,
    pub transform_bypass: int,
    pub scaling: Option<Seq<Option<ScalingList>>>,
}

/// How pictures are put in order.
pub ghost enum PictureOrder {
    /// By a counter of the given width.
    Counted { width: nat },
    /// By a cycle of offsets.
    Cycle { flag: int, non_reference: nat, bottom: nat, offsets: Seq<nat> },
    /// As they are coded.
    AsCoded,
    /// A way that is not known.
    Unknown { kind: nat },
}

/// The fields of a sequence parameter set up to the flag that says whether all
/// pictures are whole frames.
pub ghost struct SpsFields {
    pub profile: u8,
    pub id: nat,
    pub high: HighFields,
    pub frame_number_width: nat,
    pub order: PictureOrder,
    pub reference_frames: nat,
    pub gaps_allowed: int,
    pub width: nat,
    pub height: nat,
}

/// A number that an Exp-Golomb code of at most 31 leading zeros can hold.
pub open spec fn codable(v: nat) -> bool {
    v < 0xFFFF_FFFF
}

pub open spec fn list_valid(list: ScalingList, entries: nat) -> bool {
    &&& list.scales.len() <= entries
    &&& list.stops <==> list.scales.len() < entries
    &&& forall|i: int| 0 <= i < list.scales.len() ==> 1 <= #[trigger] list.scales[i] <= 255
}

/// Six lists of 16 entries and two of 64, or six of these in format 3.
pub open spec fn lists_valid(lists: Seq<Option<ScalingList>>) -> bool {
    forall|i: int|
        0 <= i < lists.len() && (#[trigger] lists[i]) is Some ==> list_valid(
            lists[i]->0,
            if i < 6 {
                16
            } else {
                64
            },
        )
}

impl HighFields {
    pub open spec fn valid(self) -> bool {
        &&& codable(self.chroma_format) && codable(self.luma_depth) && codable(self.chroma_depth)
        &&& self.scaling is Some ==> lists_valid(self.scaling->0) && self.scaling->0.len() == if (
        self.chroma_format == 3) {
            12nat
        } else {
            8nat
        }
    }

    pub open spec fn code(self) -> Seq<int> {
        ue_code(self.chroma_format) + (if self.chroma_format == 3 {
            seq![self.separate_planes]
        } else {
            Seq::empty()
        }) + ue_code(self.luma_depth) + ue_code(self.chroma_depth) + seq![self.transform_bypass] + (
        match self.scaling {
            Some(lists) => seq![1int] + lists_code(lists, 0),
            None => seq![0int],
        })
    }
}

impl PictureOrder {
    pub open spec fn valid(self) -> bool {
        match self {
            PictureOrder::Counted { width } => codable(width),
            PictureOrder::Cycle { flag, non_reference, bottom, offsets } => codable(non_reference)
                && codable(bottom) && codable(offsets.len()) && forall|i: int|
                0 <= i < offsets.len() ==> codable(#[trigger] offsets[i]),
            PictureOrder::AsCoded => true,
            PictureOrder::Unknown { kind } => kind > 2 && codable(kind),
        }
    }

    pub open spec fn code(self) -> Seq<int> {
        match self {
            PictureOrder::Counted { width } => ue_code(0) + ue_code(width),
            PictureOrder::Cycle { flag, non_reference, bottom, offsets } => ue_code(1) + seq![flag]
                + ue_code(non_reference) + ue_code(bottom) + ue_code(offsets.len()) + ue_codes(
                offsets,
            ),
            PictureOrder::AsCoded => ue_code(2),
            PictureOrder::Unknown { kind } => ue_code(kind),
        }
    }
}

impl SpsFields {
    pub open spec fn valid(self) -> bool {
        &&& codable(self.id) && codable(self.frame_number_width) && codable(self.reference_frames)
        &&& codable(self.width) && codable(self.height)
        &&& self.high.valid()
        &&& self.order.valid()
    }

    /// Whether the profile is one whose parameter sets hold the high fields.
    pub open spec fn is_high(self) -> bool {
        seq![100u8, 110, 122, 244, 44, 83, 86, 118, 128, 138, 139, 134, 135].contains(self.profile)
    }

    /// The fields up to the order of pictures.
    pub open spec fn opening(self) -> Seq<int> {
        ue_code(self.id) + (if self.is_high() {
            self.high.code()
        } else {
            Seq::empty()
        }) + ue_code(self.frame_number_width) + self.order.code()
    }

    /// The fields behind the profile and level, which take three bytes.
    pub open spec fn code(self) -> Seq<int> {
        self.opening() + ue_code(self.reference_frames) + seq![self.gaps_allowed] + ue_code(
            self.width,
        ) + ue_code(self.height)
    }
}

/// What is spelled by two codes in a row is spelled by each at its place.
proof fn lemma_spells_both(data: Seq<u8>, pos: int, a: Seq<int>, b: Seq<int>)
    requires
        spells(data, pos, a + b),
    ensures
        spells(data, pos, a),
        spells(data, pos + a.len(), b),
{
    let both = a + b;
    assert forall|i: int| 0 <= i < a.len() implies bit_at(data, pos + i) == #[trigger] a[i] by {
        assert(both[i] == a[i]);
    }
    assert forall|i: int| 0 <= i < b.len() implies bit_at(data, pos + a.len() + i)
        == #[trigger] b[i] by {
        assert(both[a.len() + i] == b[i]);
    }
}

/// The digits of a number, read as a number, are the number.
proof fn lemma_binary_value(data: Seq<u8>, pos: int, n: nat)
    requires
        spells(data, pos, binary(n)),
    ensures
        bits_at(data, pos, binary(n).len()) == n,
    decreases n,
{
    let b = binary(n);
    reveal_with_fuel(bits_at, 2);
    if n < 2 {
        assert(bit_at(data, pos + 0) == b[0]);
    } else {
        let front = binary(n / 2);
        assert(b =~= front + seq![(n % 2) as int]);
        lemma_spells_both(data, pos, front, seq![(n % 2) as int]);
        lemma_binary_value(data, pos, n / 2);
        assert(bit_at(data, pos + front.len()) == b[front.len() as int]);
        assert(bits_at(data, pos, b.len()) == 2 * bits_at(data, pos, front.len()) + bit_at(
            data,
            pos + b.len() - 1,
        ));
    }
}

/// A number other than zero begins with a one, and has one digit more than
/// the power of two that it reaches.
proof fn lemma_binary_length(n: nat)
    requires
        n >= 1,
    ensures
        binary(n).len() >= 1,
        binary(n)[0] == 1,
        pow2((binary(n).len() - 1) as nat) <= n,
    decreases n,
{
    vstd::arithmetic::power2::lemma2_to64();
    if n >= 2 {
        lemma_binary_length(n / 2);
        vstd::arithmetic::power2::lemma_pow2_unfold((binary(n).len() - 1) as nat);
    }
}

/// The first bit counts as the power of two of what follows it.
proof fn lemma_leading_bit(data: Seq<u8>, pos: int, n: nat)
    ensures
        bits_at(data, pos, n + 1) == bit_at(data, pos) * pow2(n) + bits_at(data, pos + 1, n),
    decreases n,
{
    vstd::arithmetic::power2::lemma2_to64();
    if n == 0 {
        reveal_with_fuel(bits_at, 2);
    } else {
        lemma_leading_bit(data, pos, (n - 1) as nat);
        vstd::arithmetic::power2::lemma_pow2_unfold(n);
        let p = pow2((n - 1) as nat) as int;
        let bit = bit_at(data, pos);
        assert(bit * (2 * p) == 2 * (bit * p)) by (nonlinear_arith);
        assert(pos + (n + 1) - 1 == pos + 1 + n - 1);
    }
}

proof fn lemma_zeros_counted(data: Seq<u8>, pos: int, n: nat)
    requires
        0 <= pos,
        pos + n < 8 * data.len(),
        forall|i: int| 0 <= i < n ==> #[trigger] bit_at(data, pos + i) == 0,
        bit_at(data, pos + n) != 0,
    ensures
        zeros_at(data, pos) == n,
    decreases n,
{
    if n > 0 {
        assert(bit_at(data, pos + 0) == 0);
        assert forall|i: int| 0 <= i < n - 1 implies #[trigger] bit_at(data, pos + 1 + i) == 0 by {
            assert(bit_at(data, pos + (i + 1)) == 0);
        }
        lemma_zeros_counted(data, pos + 1, (n - 1) as nat);
    }
}

/// An Exp-Golomb code that was written is read with its number.
proof fn lemma_ue_round_trip(data: Seq<u8>, pos: int, v: nat)
    requires
        codable(v),
        spells(data, pos, ue_code(v)),
    ensures
        ue_at(data, pos) == Some((v as int, pos + ue_code(v).len())),
{
    reveal(ue_at);
    let digits = binary(v + 1);
    lemma_binary_length(v + 1);
    let z = (digits.len() - 1) as nat;
    let zeros = Seq::new(z, |i: int| 0int);
    lemma_spells_both(data, pos, zeros, digits);
    assert(bit_at(data, pos + z + 0) == digits[0]);
    assert forall|i: int| 0 <= i < z implies #[trigger] bit_at(data, pos + i) == 0 by {
        assert(zeros[i] == 0);
    }
    lemma_zeros_counted(data, pos, z);
    lemma_binary_value(data, pos + z, v + 1);
    lemma_leading_bit(data, pos + z, z);
    vstd::arithmetic::power2::lemma2_to64();
    if z > 31 {
        if z > 32 {
            vstd::arithmetic::power2::lemma_pow2_strictly_increases(32, z);
        }
        assert(false);
    }
}

proof fn lemma_ues_round_trip(data: Seq<u8>, pos: int, values: Seq<nat>)
    requires
        forall|i: int| 0 <= i < values.len() ==> codable(#[trigger] values[i]),
        spells(data, pos, ue_codes(values)),
    ensures
        after_ues(data, Some(pos), values.len()) == Some(pos + ue_codes(values).len()),
    decreases values.len(),
{
    if values.len() > 0 {
        let front = values.drop_last();
        lemma_spells_both(data, pos, ue_codes(front), ue_code(values.last()));
        lemma_ues_round_trip(data, pos, front);
        lemma_ue_round_trip(data, pos + ue_codes(front).len(), values.last());
    }
}

proof fn lemma_list_round_trip(data: Seq<u8>, pos: int, list: ScalingList, last: int, entries: nat)
    requires
        1 <= last <= 255,
        list_valid(list, entries),
        spells(data, pos, list_code(list, last)),
    ensures
        after_scales(data, Some(pos), last, entries) == Some(pos + list_code(list, last).len()),
    decreases list.scales.len(),
{
    if list.scales.len() == 0 {
        if list.stops {
            lemma_ue_round_trip(data, pos, (2 * last) as nat);
            let end = pos + se_code(-last).len();
            assert((last + se_value(2 * last)) % 256 == 0);
            assert(after_scales(data, Some(end), 0, (entries - 1) as nat) == Some(end));
        }
    } else {
        let scale = list.scales[0];
        let rest = ScalingList { scales: list.scales.drop_first(), ..list };
        let d = scale - last;
        let k = if d > 0 {
            2 * d - 1
        } else {
            -2 * d
        };
        lemma_spells_both(data, pos, se_code(d), list_code(rest, scale));
        lemma_ue_round_trip(data, pos, k as nat);
        assert(se_value(k) == d);
        assert((last + d) % 256 == scale);
        assert forall|i: int| 0 <= i < rest.scales.len() implies 1 <= #[trigger] rest.scales[i]
            <= 255 by {
            assert(rest.scales[i] == list.scales[i + 1]);
        }
        lemma_list_round_trip(data, pos + se_code(d).len(), rest, scale, (entries - 1) as nat);
    }
}

proof fn lemma_lists_round_trip(
    data: Seq<u8>,
    pos: int,
    lists: Seq<Option<ScalingList>>,
    i: nat,
)
    requires
        lists_valid(lists),
        spells(data, pos, lists_code(lists, i)),
    ensures
        after_scaling_lists(data, Some(pos), i, lists.len()) == Some(
            pos + lists_code(lists, i).len(),
        ),
    decreases lists.len() - i,
{
    if i < lists.len() {
        let flag = match lists[i as int] {
            Some(_) => 1int,
            None => 0int,
        };
        let body = match lists[i as int] {
            Some(list) => list_code(list, 8),
            None => Seq::empty(),
        };
        let after = lists_code(lists, i + 1);
        assert(lists_code(lists, i) =~= seq![flag] + body + after);
        lemma_spells_both(data, pos, seq![flag] + body, after);
        lemma_spells_both(data, pos, seq![flag], body);
        assert(bit_at(data, pos + 0) == seq![flag][0]);
        if let Some(list) = lists[i as int] {
            lemma_list_round_trip(
                data,
                pos + 1,
                list,
                8,
                if i < 6 {
                    16
                } else {
                    64
                },
            );
        }
        lemma_lists_round_trip(data, pos + 1 + body.len(), lists, i + 1);
    }
}

proof fn lemma_high_round_trip(data: Seq<u8>, pos: int, high: HighFields)
    requires
        high.valid(),
        spells(data, pos, high.code()),
    ensures
        after_high_profile(data, Some(pos)) == Some(pos + high.code().len()),
{
    let c = ue_code(high.chroma_format);
    let separate = if high.chroma_format == 3 {
        seq![high.separate_planes]
    } else {
        Seq::<int>::empty()
    };
    let l = ue_code(high.luma_depth);
    let d = ue_code(high.chroma_depth);
    let b = seq![high.transform_bypass];
    let tail = match high.scaling {
        Some(lists) => seq![1int] + lists_code(lists, 0),
        None => seq![0int],
    };
    lemma_spells_both(data, pos, c + separate + l + d + b, tail);
    lemma_spells_both(data, pos, c + separate + l + d, b);
    lemma_spells_both(data, pos, c + separate + l, d);
    lemma_spells_both(data, pos, c + separate, l);
    lemma_spells_both(data, pos, c, separate);
    lemma_ue_round_trip(data, pos, high.chroma_format);
    let depths = pos + c.len() + separate.len();
    lemma_ue_round_trip(data, depths, high.luma_depth);
    lemma_ue_round_trip(data, depths + l.len(), high.chroma_depth);
    let flag = depths + l.len() + d.len() + 1;
    assert(bit_at(data, flag + 0) == tail[0]);
    if let Some(lists) = high.scaling {
        lemma_spells_both(data, flag, seq![1int], lists_code(lists, 0));
        lemma_lists_round_trip(data, flag + 1, lists, 0);
    }
}

proof fn lemma_order_round_trip(data: Seq<u8>, pos: int, order: PictureOrder)
    requires
        order.valid(),
        spells(data, pos, order.code()),
    ensures
        after_picture_order(data, Some(pos)) == if order is Unknown {
            None
        } else {
            Some(pos + order.code().len())
        },
{
    match order {
        PictureOrder::Counted { width } => {
            lemma_spells_both(data, pos, ue_code(0), ue_code(width));
            lemma_ue_round_trip(data, pos, 0);
            lemma_ue_round_trip(data, pos + ue_code(0).len(), width);
        },
        PictureOrder::Cycle { flag, non_reference, bottom, offsets } => {
            let (k, f) = (ue_code(1), seq![flag]);
            let (n, b) = (ue_code(non_reference), ue_code(bottom));
            let count = ue_code(offsets.len());
            lemma_spells_both(data, pos, k + f + n + b + count, ue_codes(offsets));
            lemma_spells_both(data, pos, k + f + n + b, count);
            lemma_spells_both(data, pos, k + f + n, b);
            lemma_spells_both(data, pos, k + f, n);
            lemma_spells_both(data, pos, k, f);
            lemma_ue_round_trip(data, pos, 1);
            let fields = pos + k.len() + 1;
            lemma_ue_round_trip(data, fields, non_reference);
            lemma_ue_round_trip(data, fields + n.len(), bottom);
            lemma_ue_round_trip(data, fields + n.len() + b.len(), offsets.len());
            lemma_ues_round_trip(data, fields + n.len() + b.len() + count.len(), offsets);
        },
        PictureOrder::AsCoded => {
            lemma_ue_round_trip(data, pos, 2);
        },
        PictureOrder::Unknown { kind } => {
            lemma_ue_round_trip(data, pos, kind);
        },
    }
}

proof fn lemma_opening_round_trip(rbsp: Seq<u8>, fields: SpsFields)
    requires
        fields.valid(),
        rbsp.len() >= 3,
        rbsp[0] == fields.profile,
        spells(rbsp, 24, fields.opening()),
    ensures
        ({
            let id = after_ue(rbsp, Some(24));
            let profile = if is_high_profile(rbsp[0]) {
                after_high_profile(rbsp, id)
            } else {
                id
            };
            after_picture_order(rbsp, after_ue(rbsp, profile))
        }) == if fields.order is Unknown {
            None
        } else {
            Some(24 + fields.opening().len() as int)
        },
{
    let id = ue_code(fields.id);
    let high = if fields.is_high() {
        fields.high.code()
    } else {
        Seq::<int>::empty()
    };
    let number = ue_code(fields.frame_number_width);
    lemma_spells_both(rbsp, 24, id + high + number, fields.order.code());
    lemma_spells_both(rbsp, 24, id + high, number);
    lemma_spells_both(rbsp, 24, id, high);
    lemma_ue_round_trip(rbsp, 24, fields.id);
    let listed = seq![100u8, 110, 122, 244, 44, 83, 86, 118, 128, 138, 139, 134, 135];
    assert(is_high_profile(fields.profile) == fields.is_high()) by {
        if is_high_profile(fields.profile) {
            assert(listed[0] == 100 && listed[1] == 110 && listed[2] == 122 && listed[3] == 244
                && listed[4] == 44 && listed[5] == 83 && listed[6] == 86 && listed[7] == 118
                && listed[8] == 128 && listed[9] == 138 && listed[10] == 139 && listed[11] == 134
                && listed[12] == 135);
        }
    }
    if fields.is_high() {
        lemma_high_round_trip(rbsp, 24 + id.len() as int, fields.high);
    }
    let at = 24 + id.len() as int + high.len() as int;
    lemma_ue_round_trip(rbsp, at, fields.frame_number_width);
    lemma_order_round_trip(rbsp, at + number.len(), fields.order);
}

/// A parameter set that was written from its fields is read as its last flag
/// says: progressive where all pictures are whole frames, interlaced where
/// they are not, whatever the profile and the other fields.  The flag against
/// whole frames has another bit behind it, without which the set is cut short.
pub proof fn law_written_parameter_set_is_read(rbsp: Seq<u8>, fields: SpsFields, whole_frames: int)
    requires
        fields.valid(),
        !(fields.order is Unknown),
        whole_frames == 0 || whole_frames == 1,
        rbsp.len() >= 3,
        rbsp[0] == fields.profile,
        spells(rbsp, 24, fields.code().push(whole_frames)),
    ensures
        whole_frames == 1 ==> sps_scan_type(rbsp) == Some(ScanType::Progressive),
        whole_frames == 0 ==> sps_scan_type(rbsp) == if 24 + fields.code().len() + 1 < 8
            * rbsp.len() {
            Some(ScanType::Interlaced)
        } else {
            None
        },
        frame_flag_position(rbsp) == Some(24 + fields.code().len() as int),
{
    let code = fields.code();
    let flag = seq![whole_frames];
    assert(code.push(whole_frames) =~= code + flag);
    lemma_spells_both(rbsp, 24, code, flag);
    let o = fields.opening();
    let r = ue_code(fields.reference_frames);
    let g = seq![fields.gaps_allowed];
    let w = ue_code(fields.width);
    let h = ue_code(fields.height);
    lemma_spells_both(rbsp, 24, o + r + g + w, h);
    lemma_spells_both(rbsp, 24, o + r + g, w);
    lemma_spells_both(rbsp, 24, o + r, g);
    lemma_spells_both(rbsp, 24, o, r);
    lemma_opening_round_trip(rbsp, fields);
    let at = 24 + o.len() as int;
    lemma_ue_round_trip(rbsp, at, fields.reference_frames);
    lemma_ue_round_trip(rbsp, at + r.len() + 1, fields.width);
    lemma_ue_round_trip(rbsp, at + r.len() + 1 + w.len(), fields.height);
    let end = 24 + code.len() as int;
    assert(bit_at(rbsp, end + 0) == flag[0]);
}

/// A parameter set that puts pictures in order in a way that is not known
/// declares nothing, whatever follows.
pub proof fn law_unknown_picture_order_declares_nothing(rbsp: Seq<u8>, fields: SpsFields)
    requires
        fields.valid(),
        fields.order is Unknown,
        rbsp.len() >= 3,
        rbsp[0] == fields.profile,
        spells(rbsp, 24, fields.opening()),
    ensures
        sps_scan_type(rbsp) is None,
{
    lemma_opening_round_trip(rbsp, fields);
}

/// A parameter set that ends before its flag declares nothing.
pub proof fn law_cut_parameter_set_declares_nothing(
    cut: Seq<u8>,
    rbsp: Seq<u8>,
    fields: SpsFields,
    whole_frames: int,
)
    requires
        fields.valid(),
        !(fields.order is Unknown),
        whole_frames == 0 || whole_frames == 1,
        rbsp.len() >= 3,
        rbsp[0] == fields.profile,
        spells(rbsp, 24, fields.code().push(whole_frames)),
        cut.is_prefix_of(rbsp),
        8 * cut.len() <= 24 + fields.code().len(),
    ensures
        sps_scan_type(cut) is None,
{
    law_written_parameter_set_is_read(rbsp, fields, whole_frames);
    if sps_scan_type(cut) is Some {
        lemma_flag_position_in_prefix(cut, rbsp);
    }
}

/// Whether `s` begins with a start code: zeros, two or three, and a one.
pub open spec fn begins_with_code(s: Seq<u8>) -> bool {
    ||| s.len() >= 3 && s[0] == 0 && s[1] == 0 && s[2] == 1
    ||| s.len() >= 4 && s[0] == 0 && s[1] == 0 && s[2] == 0 && s[3] == 1
}

/// A NAL unit as it stands in a byte stream: no start code occurs in it, and
/// it does not end with a zero.
pub open spec fn is_unit(nal: Seq<u8>) -> bool {
    &&& nal.len() > 0
    &&& nal.last() != 0
    &&& forall|i: int|
        0 <= i < nal.len() - 2 ==> !(#[trigger] nal[i] == 0 && nal[i + 1] == 0 && nal[i + 2] == 1)
}

proof fn lemma_code_search_shifted(data: Seq<u8>, k: int, from: int)
    requires
        0 <= k <= data.len(),
        0 <= from,
    ensures
        next_start_code(data, k + from) == match next_start_code(data.skip(k), from) {
            Some(i) => Some(i + k),
            None => None,
        },
    decreases data.len() - k - from,
{
    let tail = data.skip(k);
    if from + 2 < tail.len() {
        assert(start_code_at(data, k + from) == start_code_at(tail, from)) by {
            assert(tail[from] == data[k + from] && tail[from + 1] == data[k + from + 1]
                && tail[from + 2] == data[k + from + 2]);
            if from + 3 < tail.len() {
                assert(tail[from + 3] == data[k + from + 3]);
            }
        }
        if !start_code_at(tail, from) {
            lemma_code_search_shifted(data, k, from + 1);
        }
    }
}

proof fn lemma_first_sps_shifted(data: Seq<u8>, k: int, pos: int)
    requires
        0 <= k <= data.len(),
        0 <= pos,
    ensures
        first_sps_scan_type(data, nal_ranges(data, k + pos)) == first_sps_scan_type(
            data.skip(k),
            nal_ranges(data.skip(k), pos),
        ),
    decreases data.len() - k - pos,
{
    let tail = data.skip(k);
    if pos + 3 < tail.len() {
        lemma_code_search_shifted(data, k, pos);
        lemma_next_start_code_bounds(tail, pos);
        if let Some(code) = next_start_code(tail, pos) {
            assert(tail[code + 2] == data[k + code + 2]);
            let begin = behind_start_code(tail, code);
            assert(behind_start_code(data, code + k) == begin + k);
            if begin < tail.len() {
                lemma_code_search_shifted(data, k, begin);
                lemma_next_start_code_bounds(tail, begin);
                let end = match next_start_code(tail, begin) {
                    Some(e) => e,
                    None => tail.len() as int,
                };
                lemma_first_sps_shifted(data, k, end);
                if end != begin {
                    assert(tail[begin] == data[begin + k]);
                    assert(tail.subrange(begin + 1, end) =~= data.subrange(
                        begin + k + 1,
                        end + k,
                    ));
                    let units = nal_ranges(tail, pos);
                    let all_units = nal_ranges(data, k + pos);
                    assert(units.drop_first() =~= nal_ranges(tail, end));
                    assert(all_units.drop_first() =~= nal_ranges(data, end + k));
                }
            }
        }
    }
}

/// No start code begins where none can.
proof fn lemma_search_passes(data: Seq<u8>, from: int, to: int)
    requires
        0 <= from <= to <= data.len(),
        forall|i: int| from <= i < to ==> !start_code_at(data, i),
    ensures
        next_start_code(data, from) == next_start_code(data, to),
    decreases to - from,
{
    if from < to {
        assert(!start_code_at(data, from));
        lemma_search_passes(data, from + 1, to);
        if from + 2 >= data.len() {
            assert(next_start_code(data, to) is None);
        }
    }
}

/// Within a unit no start code begins.
proof fn lemma_units_hold_no_code(before: Seq<u8>, nal: Seq<u8>, tail: Seq<u8>)
    requires
        is_unit(nal),
        tail.len() == 0 || begins_with_code(tail),
    ensures
        forall|i: int|
            before.len() <= i < before.len() + nal.len() ==> !start_code_at(
                before + nal + tail,
                i,
            ),
{
    let data = before + nal + tail;
    let begin = before.len() as int;
    assert forall|i: int| begin <= i < begin + nal.len() implies !start_code_at(data, i) by {
        let j = i - begin;
        assert(data[i] == nal[j]);
        if j + 1 < nal.len() {
            assert(data[i + 1] == nal[j + 1]);
            if j + 2 < nal.len() {
                assert(data[i + 2] == nal[j + 2]);
                if j + 3 < nal.len() {
                    assert(data[i + 3] == nal[j + 3]);
                    assert(!(nal[j + 1] == 0 && nal[(j + 1) + 1] == 0 && nal[(j + 1) + 2] == 1));
                }
            }
        }
    }
}

/// The units of a byte stream are looked at in turn: the first one that is a
/// sequence parameter set decides, and a unit of another type is passed over.
#[verifier::spinoff_prover]
#[verifier::rlimit(60)]
pub proof fn law_first_parameter_set_decides(code: Seq<u8>, nal: Seq<u8>, tail: Seq<u8>)
    requires
        code == seq![0u8, 0u8, 1u8] || code == seq![0u8, 0u8, 0u8, 1u8],
        is_unit(nal),
        tail.len() == 0 || begins_with_code(tail),
    ensures
        h264_scan_type(code + nal + tail) == if nal[0] % 32 == 7 {
            sps_scan_type(unescaped(nal.skip(1)))
        } else if tail.len() == 0 {
            None
        } else {
            h264_scan_type(tail)
        },
{
    let data = code + nal + tail;
    let begin = code.len() as int;
    let end = begin + nal.len();
    assert(data[0] == 0 && data[1] == 0 && data[2] == code[2]);
    if code.len() == 4 {
        assert(data[3] == 1);
    }
    assert(start_code_at(data, 0));
    assert(behind_start_code(data, 0) == begin);
    lemma_units_hold_no_code(code, nal, tail);
    lemma_search_passes(data, begin, end);
    assert(data.skip(end) =~= tail);
    lemma_code_search_shifted(data, end, 0);
    if tail.len() > 0 {
        assert(start_code_at(tail, 0));
        assert(next_start_code(data, begin) == Some(end));
    } else {
        assert(next_start_code(data, begin) is None);
        assert(data.len() == end);
    }
    let units = nal_ranges(data, 0);
    assert(units[0] == (begin, end));
    assert(units.drop_first() =~= nal_ranges(data, end));
    assert(data[begin] == nal[0]);
    assert(data.subrange(begin + 1, end) =~= nal.skip(1));
    lemma_first_sps_shifted(data, end, 0);
}

/// What stands before the first start code is passed over.
#[verifier::spinoff_prover]
#[verifier::rlimit(60)]
pub proof fn law_bytes_before_the_first_code_are_passed_over(junk: Seq<u8>, stream: Seq<u8>)
    requires
        junk.len() > 0 ==> is_unit(junk),
        begins_with_code(stream),
    ensures
        h264_scan_type(junk + stream) == h264_scan_type(stream),
{
    let data = junk + stream;
    let k = junk.len() as int;
    if k > 0 {
        assert(Seq::<u8>::empty() + junk + stream =~= data);
        lemma_units_hold_no_code(Seq::empty(), junk, stream);
    }
    lemma_search_passes(data, 0, k);
    assert(data.skip(k) =~= stream);
    lemma_first_sps_shifted(data, k, 0);
    lemma_code_search_shifted(data, k, 0);
    if k + 3 < data.len() {
        assert(nal_ranges(data, 0) == nal_ranges(data, k));
    } else {
        lemma_next_start_code_bounds(data, 0);
        assert(nal_ranges(data, k) =~= Seq::empty());
        assert(nal_ranges(data, 0) =~= Seq::empty());
    }
}

/// Where no `00 00 03` occurs, nothing is taken out.
pub proof fn law_unescaped_bytes_stay(s: Seq<u8>)
    requires
        forall|i: int|
            0 <= i < s.len() - 2 ==> !(#[trigger] s[i] == 0 && s[i + 1] == 0 && s[i + 2] == 3),
    ensures
        unescaped(s) == s,
    decreases s.len(),
{
    if s.len() > 0 {
        let rest = s.skip(1);
        assert forall|i: int| 0 <= i < rest.len() - 2 implies !(#[trigger] rest[i] == 0 && rest[i
            + 1] == 0 && rest[i + 2] == 3) by {
            assert(rest[i] == s[i + 1] && rest[i + 1] == s[i + 2] && rest[i + 2] == s[i + 3]);
        }
        law_unescaped_bytes_stay(rest);
        if s.len() >= 3 {
            assert(!(s[0] == 0 && s[1] == 0 && s[2] == 3));
        }
        assert(seq![s[0]] + rest =~= s);
    }
}

/// The first `00 00 03` loses its last byte, and what stands behind it is
/// looked at on its own.
pub proof fn law_emulation_byte_is_taken_out(head: Seq<u8>, after: Seq<u8>)
    requires
        head.len() >= 3,
        head[head.len() - 3] == 0,
        head[head.len() - 2] == 0,
        head[head.len() - 1] == 3,
        forall|i: int|
            0 <= i < head.len() - 3 ==> !(#[trigger] head[i] == 0 && head[i + 1] == 0 && head[i + 2]
                == 3),
    ensures
        unescaped(head + after) == head.drop_last() + unescaped(after),
    decreases head.len(),
{
    let all = head + after;
    assert(all[0] == head[0] && all[1] == head[1] && all[2] == head[2]);
    if head.len() == 3 {
        assert(all.skip(3) =~= after);
        assert(head.drop_last() =~= seq![0u8, 0u8]);
    } else {
        let rest = head.skip(1);
        assert forall|i: int| 0 <= i < rest.len() - 3 implies !(#[trigger] rest[i] == 0 && rest[i
            + 1] == 0 && rest[i + 2] == 3) by {
            assert(rest[i] == head[i + 1] && rest[i + 1] == head[i + 2] && rest[i + 2] == head[i
                + 3]);
        }
        law_emulation_byte_is_taken_out(rest, after);
        assert(all.skip(1) =~= rest + after);
        assert(!(head[0] == 0 && head[1] == 0 && head[2] == 3));
        assert(seq![head[0]] + (rest.drop_last() + unescaped(after)) =~= head.drop_last()
            + unescaped(after));
    }
}

/// A search finds the first place where a start code stands, and none only
/// where there is none.
pub proof fn law_search_finds_the_first_code(data: Seq<u8>, from: int)
    requires
        0 <= from,
    ensures
        match next_start_code(data, from) {
            Some(i) => from <= i < data.len() && begins_with_code(data.skip(i)) && forall|j: int|
                from <= j < i ==> !begins_with_code(#[trigger] data.skip(j)),
            None => forall|j: int|
                from <= j < data.len() ==> !begins_with_code(#[trigger] data.skip(j)),
        },
    decreases data.len() - from,
{
    assert forall|j: int| 0 <= j < data.len() implies begins_with_code(#[trigger] data.skip(j))
        == start_code_at(data, j) by {
        let tail = data.skip(j);
        assert(tail[0] == data[j]);
        if j + 1 < data.len() {
            assert(tail[1] == data[j + 1]);
        }
        if j + 2 < data.len() {
            assert(tail[2] == data[j + 2]);
        }
        if j + 3 < data.len() {
            assert(tail[3] == data[j + 3]);
        }
    }
    if from + 2 < data.len() && !start_code_at(data, from) {
        law_search_finds_the_first_code(data, from + 1);
    }
}

/// A stream not settled yet is interlaced where that is forced, or where a
/// frame or the field order says so; else a parameter set settles it, and
/// without one it stays open.  Nothing is settled where deinterlacing is off.
pub proof fn law_signs_settle_the_scan_type(
    is_h264: bool,
    pkt_bytes: Seq<u8>,
    frame_interlaced: bool,
    field_order: int,
)
    ensures
        next_scan_type(
            ScanType::Unknown,
            DeinterlaceMode::Force,
            is_h264,
            pkt_bytes,
            frame_interlaced,
            field_order,
        ) == ScanType::Interlaced,
        next_scan_type(
            ScanType::Unknown,
            DeinterlaceMode::Off,
            is_h264,
            pkt_bytes,
            frame_interlaced,
            field_order,
        ) == ScanType::Unknown,
        next_scan_type(
            ScanType::Unknown,
            DeinterlaceMode::Auto,
            is_h264,
            pkt_bytes,
            frame_interlaced,
            field_order,
        ) == if frame_interlaced || field_order > 1 {
            ScanType::Interlaced
        } else if is_h264 && h264_scan_type(pkt_bytes) == Some(ScanType::Interlaced) {
            ScanType::Interlaced
        } else if is_h264 && h264_scan_type(pkt_bytes) == Some(ScanType::Progressive) {
            ScanType::Progressive
        } else {
            ScanType::Unknown
        },
        AV_FIELD_PROGRESSIVE == 1,
        AV_FIELD_INTERLACED_MIN == AV_FIELD_PROGRESSIVE + 1,
{
}

} // verus!
