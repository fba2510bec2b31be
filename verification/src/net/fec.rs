use vstd::prelude::*;
use vstd::string::StringExecFns;

use crate::text::push_decimal;

verus! {

/// Length of the header that follows the RTP header of a FEC packet.
pub const FEC_HEADER_LEN: usize = 16;

/// What a FEC stream protects: columns or rows of the packet matrix.
#[derive(Debug, Clone, Copy, PartialEq, Eq, Structural)]
pub enum FecAxis {
    Column,
    Row,
}

impl FecAxis {
    /// The name shown for the axis.
    pub fn label(self) -> (r: &'static str)
        ensures
            r@ == match self {
                FecAxis::Column => "coluna"@,
                FecAxis::Row => "linha"@,
            },
    {
        match self {
            FecAxis::Column => "coluna",
            FecAxis::Row => "linha",
        }
    }
}

/// The header of a FEC packet.
#[derive(Debug, Clone, Copy, PartialEq, Eq, Structural)]
pub struct FecHeader {
    /// Number of the first packet that is protected.
    pub sn_base: u16,
    pub length_recovery: u16,
    pub extension: bool,
    pub pt_recovery: u8,
    pub mask: u32,
    pub ts_recovery: u32,
    pub x: bool,
    /// Set for rows.
    pub d: bool,
    pub fec_type: u8,
    pub index: u8,
    /// Distance between protected packets.
    pub offset: u8,
    /// How many packets are protected.
    pub na: u8,
    pub sn_base_ext: u8,
}

/// The bytes of a 16-bit number, most significant first.
pub open spec fn be16(v: u16) -> Seq<u8> {
    seq![(v / 256) as u8, (v % 256) as u8]
}

/// The bytes of a 24-bit number, most significant first.
pub open spec fn be24(v: u32) -> Seq<u8> {
    seq![(v / 65536) as u8, (v / 256 % 256) as u8, (v % 256) as u8]
}

/// The bytes of a 32-bit number, most significant first.
pub open spec fn be32(v: u32) -> Seq<u8> {
    seq![
        (v / 16_777_216) as u8,
        (v / 65536 % 256) as u8,
        (v / 256 % 256) as u8,
        (v % 256) as u8,
    ]
}

/// A byte whose highest bits are flags.
pub open spec fn bit(set: bool, weight: int) -> int {
    if set {
        weight
    } else {
        0
    }
}

impl FecHeader {
    /// Whether the fields fit their bits.
    pub open spec fn fits(self) -> bool {
        &&& self.pt_recovery < 128
        &&& self.mask < 0x100_0000
        &&& self.fec_type < 8
        &&& self.index < 8
    }

    /// How the header is laid out.
    pub open spec fn layout(self) -> Seq<u8> {
        be16(self.sn_base) + be16(self.length_recovery) + seq![
            (bit(self.extension, 128) + self.pt_recovery) as u8,
        ] + be24(self.mask) + be32(self.ts_recovery) + seq![
            (bit(self.x, 128) + bit(self.d, 64) + self.fec_type * 8 + self.index) as u8,
            self.offset,
            self.na,
            self.sn_base_ext,
        ]
    }

    /// Reads the header at the start of `data`.
    pub fn parse(data: &[u8]) -> (r: Option<Self>)
        ensures
            match r {
                Some(h) => {
                    &&& data@.len() >= FEC_HEADER_LEN
                    &&& h.fits()
                    &&& data@.take(FEC_HEADER_LEN as int) == h.layout()
                },
                None => data@.len() < FEC_HEADER_LEN,
            },
    {
        if data.len() < FEC_HEADER_LEN {
            return None;
        }
        let h = FecHeader {
            sn_base: data[0] as u16 * 256 + data[1] as u16,
            length_recovery: data[2] as u16 * 256 + data[3] as u16,
            extension: data[4] >= 128,
            pt_recovery: data[4] % 128,
            mask: (data[5] as u32 * 256 + data[6] as u32) * 256 + data[7] as u32,
            ts_recovery: ((data[8] as u32 * 256 + data[9] as u32) * 256 + data[10] as u32) * 256
                + data[11] as u32,
            x: data[12] >= 128,
            d: data[12] % 128 >= 64,
            fec_type: data[12] / 8 % 8,
            index: data[12] % 8,
            offset: data[13],
            na: data[14],
            sn_base_ext: data[15],
        };
        assert(h.layout() =~= data@.take(16));
        Some(h)
    }

    pub open spec fn axis_spec(self) -> FecAxis {
        if self.d {
            FecAxis::Row
        } else {
            FecAxis::Column
        }
    }

    /// What the packet protects.
    pub fn axis(&self) -> (r: FecAxis)
        ensures
            r == self.axis_spec(),
    {
        if self.d {
            FecAxis::Row
        } else {
            FecAxis::Column
        }
    }

    /// What the packet tells of the matrix: a column packet both dimensions, a
    /// row packet only the length of a row.
    pub open spec fn hint(&self) -> FecMatrixHint {
        match self.axis_spec() {
            FecAxis::Column => FecMatrixHint {
                l: Some(self.offset as u32),
                d: Some(self.na as u32),
            },
            FecAxis::Row => FecMatrixHint { l: Some(self.na as u32), d: None },
        }
    }

    pub fn matrix_hint(&self) -> (r: FecMatrixHint)
        ensures
            r == self.hint(),
    {
        match self.axis() {
            FecAxis::Column => FecMatrixHint {
                l: Some(self.offset as u32),
                d: Some(self.na as u32),
            },
            FecAxis::Row => FecMatrixHint { l: Some(self.na as u32), d: None },
        }
    }
}

/// Different headers are laid out differently.
pub proof fn law_fec_layout_is_unambiguous(a: FecHeader, b: FecHeader)
    requires
        a.fits(),
        b.fits(),
        a.layout() == b.layout(),
    ensures
        a == b,
{
    lemma_layout_fields(a);
    lemma_layout_fields(b);
}

/// What each byte of the layout says.
proof fn lemma_layout_fields(h: FecHeader)
    requires
        h.fits(),
    ensures
        ({
            let s = h.layout();
            &&& h.sn_base == s[0] * 256 + s[1]
            &&& h.length_recovery == s[2] * 256 + s[3]
            &&& h.extension == (s[4] >= 128)
            &&& h.pt_recovery == s[4] % 128
            &&& h.mask == (s[5] * 256 + s[6]) * 256 + s[7]
            &&& h.ts_recovery == ((s[8] * 256 + s[9]) * 256 + s[10]) * 256 + s[11]
            &&& h.x == (s[12] >= 128)
            &&& h.d == (s[12] % 128 >= 64)
            &&& h.fec_type == s[12] / 8 % 8
            &&& h.index == s[12] % 8
            &&& h.offset == s[13]
            &&& h.na == s[14]
            &&& h.sn_base_ext == s[15]
        }),
{
    let s = h.layout();
    assert(s[4] == bit(h.extension, 128) + h.pt_recovery);
    assert(s[12] == bit(h.x, 128) + bit(h.d, 64) + h.fec_type * 8 + h.index);
    assert(s[5] == h.mask / 65536 && s[6] == h.mask / 256 % 256 && s[7] == h.mask % 256);
    assert(s[8] == h.ts_recovery / 16_777_216 && s[9] == h.ts_recovery / 65536 % 256);
    assert(s[10] == h.ts_recovery / 256 % 256 && s[11] == h.ts_recovery % 256);
}

/// What one FEC stream tells of the matrix.
#[derive(Debug, Clone, Copy, PartialEq, Eq, Structural)]
pub struct FecMatrixHint {
    pub l: Option<u32>,
    pub d: Option<u32>,
}

impl Default for FecMatrixHint {
    fn default() -> (r: Self)
        ensures
            r == (FecMatrixHint { l: None, d: None }),
    {
        FecMatrixHint { l: None, d: None }
    }
}

/// The packet matrix, as far as it is known: row length and column length.
#[derive(Debug, Clone, Copy, PartialEq, Eq, Structural)]
pub struct FecMatrix {
    pub l: Option<u32>,
    pub d: Option<u32>,
}

impl Default for FecMatrix {
    fn default() -> (r: Self)
        ensures
            r == (FecMatrix { l: None, d: None }),
    {
        FecMatrix { l: None, d: None }
    }
}

/// A dimension as text, a dash where it is unknown.
pub open spec fn dimension_text(v: Option<u32>) -> Seq<char> {
    match v {
        Some(n) => crate::text::decimal(n as nat),
        None => "—"@,
    }
}

fn push_dimension(s: &mut String, v: Option<u32>)
    ensures
        final(s)@ == old(s)@ + dimension_text(v),
{
    match v {
        Some(n) => push_decimal(s, n as u64),
        None => s.append("—"),
    }
}

impl FecMatrix {
    pub open spec fn absorbed(self, hint: FecMatrixHint) -> Self {
        FecMatrix {
            l: if hint.l is Some {
                hint.l
            } else {
                self.l
            },
            d: if hint.d is Some {
                hint.d
            } else {
                self.d
            },
        }
    }

    /// Takes in what a stream tells, and keeps what it does not tell.
    pub fn absorb(&mut self, hint: FecMatrixHint)
        ensures
            *final(self) == old(self).absorbed(hint),
    {
        if let Some(l) = hint.l {
            self.l = Some(l);
        }
        if let Some(d) = hint.d {
            self.d = Some(d);
        }
    }

    /// How many packets the matrix holds, where both dimensions are known.
    pub fn lxd(&self) -> (r: Option<u32>)
        requires
            self.l is Some && self.d is Some ==> self.l->0 * self.d->0 <= u32::MAX,
        ensures
            match r {
                Some(n) => self.l is Some && self.d is Some && n == self.l->0 * self.d->0,
                None => self.l is None || self.d is None,
            },
    {
        match (self.l, self.d) {
            (Some(l), Some(d)) => Some(l * d),
            _ => None,
        }
    }

    /// The matrix as text.
    pub fn label(&self) -> (r: String)
        ensures
            r@ == dimension_text(self.l) + "×"@ + dimension_text(self.d),
    {
        let mut s = String::new();
        push_dimension(&mut s, self.l);
        s.append("×");
        push_dimension(&mut s, self.d);
        assert(s@ =~= dimension_text(self.l) + "×"@ + dimension_text(self.d));
        s
    }
}

/// A column packet makes the matrix known, whatever was known before, and in
/// whichever order the two streams are seen.
pub proof fn law_matrix_completes_from_both_streams(
    matrix: FecMatrix,
    row: FecHeader,
    column: FecHeader,
)
    requires
        row.axis_spec() is Row,
        column.axis_spec() is Column,
    ensures
        ({
            let seen = matrix.absorbed(row.hint()).absorbed(column.hint());
            &&& seen == FecMatrix { l: Some(column.offset as u32), d: Some(column.na as u32) }
            &&& matrix.absorbed(column.hint()).absorbed(row.hint()).d == seen.d
            &&& column.offset == row.na ==> matrix.absorbed(column.hint()).absorbed(row.hint())
                == seen
        }),
{
}

/// What the packets seen tell of the matrix.
pub open spec fn told_matrix(packets: Seq<FecHeader>) -> FecMatrix
    decreases packets.len(),
{
    if packets.len() == 0 {
        FecMatrix { l: None, d: None }
    } else {
        told_matrix(packets.drop_last()).absorbed(packets.last().hint())
    }
}

/// A matrix told by packets has a size, whichever packets they are.
pub proof fn law_told_matrices_have_a_size(packets: Seq<FecHeader>)
    ensures
        ({
            let matrix = told_matrix(packets);
            &&& matrix.l matches Some(l) ==> l <= u8::MAX
            &&& matrix.d matches Some(d) ==> d <= u8::MAX
            &&& matrix.l is Some && matrix.d is Some ==> matrix.l->0 * matrix.d->0 <= u32::MAX
        }),
    decreases packets.len(),
{
    if packets.len() > 0 {
        law_told_matrices_have_a_size(packets.drop_last());
    }
    let matrix = told_matrix(packets);
    if matrix.l is Some && matrix.d is Some {
        let (l, d) = (matrix.l->0, matrix.d->0);
        assert(l * d <= 255 * 255) by (nonlinear_arith)
            requires
                l <= 255,
                d <= 255,
        ;
    }
}

/// The ports of the FEC streams that go with a feed: one for columns and one
/// for rows, at the given distances, if there are such ports.
pub fn fec_ports(base: u16, offsets: [u16; 2]) -> (r: Option<(u16, u16)>)
    ensures
        match r {
            Some((column, row)) => column == base + offsets[0] && row == base + offsets[1],
            None => base + offsets[0] > u16::MAX || base + offsets[1] > u16::MAX,
        },
{
    match (base.checked_add(offsets[0]), base.checked_add(offsets[1])) {
        (Some(column), Some(row)) => Some((column, row)),
        _ => None,
    }
}

/// Where each field of a header stands in its sixteen bytes.
pub proof fn law_fec_fields_stand_in_their_bytes(h: FecHeader)
    requires
        h.fits(),
    ensures
        ({
            let s = h.layout();
            &&& s.len() == 16
            &&& h.sn_base == s[0] * 256 + s[1]
            &&& h.length_recovery == s[2] * 256 + s[3]
            &&& h.extension == (s[4] >= 128)
            &&& h.pt_recovery == s[4] % 128
            &&& h.mask == s[5] * 65536 + s[6] * 256 + s[7]
            &&& h.ts_recovery == s[8] * 0x100_0000 + s[9] * 65536 + s[10] * 256 + s[11]
            &&& h.x == (s[12] >= 128)
            &&& h.d == (s[12] / 64 % 2 == 1)
            &&& h.fec_type == s[12] / 8 % 8
            &&& h.index == s[12] % 8
            &&& h.offset == s[13]
            &&& h.na == s[14]
            &&& h.sn_base_ext == s[15]
        }),
{
    lemma_layout_fields(h);
    let s = h.layout();
    let b = s[12] as int;
    assert((b % 128 >= 64) == (b / 64 % 2 == 1));
}

/// A packet whose direction bit is set protects a row and tells its length; one
/// whose bit is not set protects a column and tells both dimensions.  What a
/// packet does not tell stays as it was known.
pub proof fn law_packets_tell_the_matrix(h: FecHeader, known: FecMatrix)
    ensures
        h.axis_spec() == if h.d {
            FecAxis::Row
        } else {
            FecAxis::Column
        },
        h.d ==> known.absorbed(h.hint()) == (FecMatrix { l: Some(h.na as u32), d: known.d }),
        !h.d ==> known.absorbed(h.hint()) == (FecMatrix {
            l: Some(h.offset as u32),
            d: Some(h.na as u32),
        }),
        known.absorbed(FecMatrixHint { l: None, d: None }) == known,
{
}

} // verus!
