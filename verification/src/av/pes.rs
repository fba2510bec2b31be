use std::collections::HashMap;

use bytes::Bytes;
use crossbeam_channel::Sender;
use vstd::prelude::*;

use crate::av::codec::MediaCodec;
use crate::av::error::AvError;
use crate::channel::Outlet;
use crate::octets::{bytes_as_slice, bytes_from_vec};

verus! {

/// A complete PES packet, ready to be decoded.
#[derive(Debug)]
pub struct PesPacket {
    /// Packet identifier of the elementary stream.
    pub pid: u16,
    pub codec: MediaCodec,
    /// Presentation time in 90 kHz ticks, 33 bits.
    pub pts: Option<u64>,
    /// Decoding time in 90 kHz ticks, 33 bits.
    pub dts: Option<u64>,
    /// The elementary stream bytes.
    pub payload: Bytes,
}

/// The value of a [`PesPacket`].
pub ghost struct PesUnit {
    pub pid: u16,
    pub codec: MediaCodec,
    pub pts: Option<u64>,
    pub dts: Option<u64>,
    pub payload: Seq<u8>,
}

impl View for PesPacket {
    type V = PesUnit;

    open spec fn view(&self) -> PesUnit {
        PesUnit {
            pid: self.pid,
            codec: self.codec,
            pts: self.pts,
            dts: self.dts,
            payload: crate::octets::bytes_contents(self.payload),
        }
    }
}

impl Clone for PesPacket {
    fn clone(&self) -> (r: Self)
        ensures
            r@ == self@,
    {
        PesPacket {
            pid: self.pid,
            codec: self.codec,
            pts: self.pts,
            dts: self.dts,
            payload: self.payload.clone(),
        }
    }
}

/// The number of values that a 33-bit timestamp takes.
pub const TIMESTAMP_RANGE: u64 = 0x2_0000_0000;

impl PesPacket {
    pub fn new(
        pid: u16,
        codec: MediaCodec,
        pts: Option<u64>,
        dts: Option<u64>,
        payload: Bytes,
    ) -> (r: Self)
        ensures
            r == (PesPacket { pid, codec, pts, dts, payload }),
    {
        PesPacket { pid, codec, pts, dts, payload }
    }

    /// Ticks from this packet to `next`, around the 33-bit circle; `None` where
    /// either has no presentation time.
    pub fn pts_duration(&self, next: &PesPacket) -> (r: Option<u64>)
        ensures
            r == (match (self.pts, next.pts) {
                (Some(a), Some(b)) => Some(ticks_between(a, b)),
                _ => None,
            }),
    {
        match (self.pts, next.pts) {
            (Some(a), Some(b)) => {
                let d: u64 = b.wrapping_sub(a);
                assert(d & 0x1_FFFF_FFFF == d % 0x2_0000_0000) by (bit_vector);
                assert(d % 0x2_0000_0000 == (b - a) % 0x2_0000_0000int);
                Some(d & 0x1_FFFF_FFFF)
            },
            _ => None,
        }
    }
}

/// Ticks from `a` to `b`, around the 33-bit circle.
pub open spec fn ticks_between(a: u64, b: u64) -> u64 {
    ((b - a) % (TIMESTAMP_RANGE as int)) as u64
}

/// The 33-bit timestamp in the five bytes `b`: three, fifteen and fifteen bits,
/// each group followed by a marker bit.
pub open spec fn timestamp_of(b: Seq<u8>) -> int {
    (b[0] % 16 / 2) * 0x4000_0000 + b[1] * 0x40_0000 + (b[2] / 2) * 0x8000 + b[3] * 0x80 + b[4]
        / 2
}

/// The five bytes that carry `ts`, with `prefix` in the upper half of the
/// first byte and every marker bit set.
pub open spec fn timestamp_bytes(ts: int, prefix: int) -> Seq<u8> {
    seq![
        (prefix * 16 + ts / 0x4000_0000 * 2 + 1) as u8,
        (ts / 0x40_0000 % 0x100) as u8,
        (ts / 0x8000 % 0x80 * 2 + 1) as u8,
        (ts / 0x80 % 0x100) as u8,
        (ts % 0x80 * 2 + 1) as u8,
    ]
}

/// Writing a 33-bit timestamp and reading it back gives the same timestamp,
/// whatever prefix stands in front of it.
pub proof fn law_timestamp_round_trip(ts: int, prefix: int)
    requires
        0 <= ts < TIMESTAMP_RANGE,
        0 <= prefix < 16,
    ensures
        timestamp_bytes(ts, prefix).len() == 5,
        timestamp_of(timestamp_bytes(ts, prefix)) == ts,
{
    let b = timestamp_bytes(ts, prefix);
    let top = ts / 0x4000_0000;
    assert(0 <= top < 8);
    assert(b[0] == prefix * 16 + top * 2 + 1);
    assert(b[0] % 16 / 2 == top);
    assert(b[2] / 2 == ts / 0x8000 % 0x80);
    assert(b[4] / 2 == ts % 0x80);
    lemma_split_timestamp(ts);
}

/// A number as its base-2^7, 2^15, 2^22 and 2^30 digits.
proof fn lemma_split_timestamp(ts: int)
    requires
        0 <= ts,
    ensures
        ts == ts / 0x4000_0000 * 0x4000_0000 + ts / 0x40_0000 % 0x100 * 0x40_0000 + ts / 0x8000
            % 0x80 * 0x8000 + ts / 0x80 % 0x100 * 0x80 + ts % 0x80,
{
    assert(ts / 0x8000 == ts / 0x80 / 0x100);
    assert(ts / 0x40_0000 == ts / 0x8000 / 0x80);
    assert(ts / 0x4000_0000 == ts / 0x40_0000 / 0x100);
}

/// Every five bytes carry a timestamp of 33 bits.
pub proof fn law_timestamp_fits_33_bits(b: Seq<u8>)
    ensures
        0 <= timestamp_of(b) < TIMESTAMP_RANGE,
{
}

/// Decodes the 33-bit timestamp at the start of `b`.
pub fn decode_timestamp(b: &[u8]) -> (r: Result<u64, AvError>)
    ensures
        match r {
            Ok(ts) => b@.len() >= 5 && ts == timestamp_of(b@),
            Err(e) => b@.len() < 5 && e == (AvError::InvalidPes {
                reason: "timestamp truncado (< 5 bytes)",
            }),
        },
{
    if b.len() < 5 {
        return Err(AvError::InvalidPes { reason: "timestamp truncado (< 5 bytes)" });
    }
    let (b0, b1, b2, b3, b4): (u8, u8, u8, u8, u8) = (b[0], b[1], b[2], b[3], b[4]);
    let val: u64 = ((b0 & 0x0E) as u64) << 29 | (b1 as u64) << 22 | ((b2 & 0xFE) as u64) << 14 | (
    b3 as u64) << 7 | ((b4 >> 1) as u64);
    assert(((b0 & 0x0E) as u64) << 29 | (b1 as u64) << 22 | ((b2 & 0xFE) as u64) << 14 | (
    b3 as u64) << 7 | ((b4 >> 1) as u64) == (b0 % 16 / 2) * 0x4000_0000 + b1 * 0x40_0000 + (b2 / 2)
        * 0x8000 + b3 * 0x80 + b4 / 2) by (bit_vector);
    Ok(val)
}

/// A PES packet whose elementary stream bytes are still being collected.
pub ghost struct OpenPes {
    pub codec: MediaCodec,
    pub pts: Option<u64>,
    pub dts: Option<u64>,
    pub data: Seq<u8>,
    /// How many bytes it will have; `None` where the header leaves that open.
    pub expected: Option<nat>,
}

impl OpenPes {
    /// Whether all the announced bytes are there.
    pub open spec fn complete(self) -> bool {
        self.expected matches Some(n) && self.data.len() >= n
    }

    /// The packet made of what was collected.
    pub open spec fn unit(self, pid: u16) -> PesUnit {
        PesUnit { pid, codec: self.codec, pts: self.pts, dts: self.dts, payload: self.data }
    }

    pub open spec fn extended(self, more: Seq<u8>) -> Self {
        OpenPes { data: self.data + more, ..self }
    }
}

/// Whether packets of this stream carry the optional header fields.
pub open spec fn has_optional_header(stream_id: u8) -> bool {
    !(stream_id == 0xBC || stream_id == 0xBE || stream_id == 0xBF || stream_id == 0xF0 || stream_id
        == 0xF1 || stream_id == 0xFF || stream_id == 0xF2 || stream_id == 0xF8)
}

/// The times in a PES header whose two flag bits are `flags`.
pub open spec fn header_times(data: Seq<u8>, flags: int) -> Result<
    (Option<u64>, Option<u64>),
    AvError,
> {
    if flags == 0 {
        Ok((None, None))
    } else if flags == 2 {
        if data.len() < 14 {
            Err(AvError::InvalidPes { reason: "PTS truncado no cabeçalho PES" })
        } else {
            Ok((Some(timestamp_of(data.subrange(9, 14)) as u64), None))
        }
    } else if flags == 3 {
        if data.len() < 19 {
            Err(AvError::InvalidPes { reason: "PTS/DTS truncado no cabeçalho PES" })
        } else {
            Ok(
                (
                    Some(timestamp_of(data.subrange(9, 14)) as u64),
                    Some(timestamp_of(data.subrange(14, 19)) as u64),
                ),
            )
        }
    } else {
        Err(
            AvError::InvalidPes {
                reason: "pts_dts_flags 0b01 é reservado pelo padrão ISO 13818-1",
            },
        )
    }
}

/// Decodes the times of a PES header whose two flag bits are `pts_dts_flags`.
pub fn decode_pts_dts(data: &[u8], pts_dts_flags: u8) -> (r: Result<
    (Option<u64>, Option<u64>),
    AvError,
>)
    ensures
        r == header_times(data@, pts_dts_flags as int),
{
    match pts_dts_flags {
        0b00 => Ok((None, None)),
        0b10 => {
            if data.len() < 14 {
                return Err(AvError::InvalidPes { reason: "PTS truncado no cabeçalho PES" });
            }
            let pts: u64 = match decode_timestamp(&data[9..14]) {
                Ok(t) => t,
                Err(e) => {
                    return Err(e);
                },
            };
            Ok((Some(pts), None))
        },
        0b11 => {
            if data.len() < 19 {
                return Err(AvError::InvalidPes { reason: "PTS/DTS truncado no cabeçalho PES" });
            }
            let pts: u64 = match decode_timestamp(&data[9..14]) {
                Ok(t) => t,
                Err(e) => {
                    return Err(e);
                },
            };
            let dts: u64 = match decode_timestamp(&data[14..19]) {
                Ok(t) => t,
                Err(e) => {
                    return Err(e);
                },
            };
            Ok((Some(pts), Some(dts)))
        },
        _ => Err(
            AvError::InvalidPes {
                reason: "pts_dts_flags 0b01 é reservado pelo padrão ISO 13818-1",
            },
        ),
    }
}

/// The 16-bit big-endian number at `i`.
pub open spec fn be16(data: Seq<u8>, i: int) -> nat {
    (data[i] * 256 + data[i + 1]) as nat
}

/// Where the elementary stream bytes of a packet start.
pub open spec fn es_start(data: Seq<u8>) -> int {
    if has_optional_header(data[3]) {
        9 + data[8]
    } else {
        6
    }
}

/// The packet that begins with the bytes `data`, or why there is none.
pub open spec fn pes_start(data: Seq<u8>, codec: MediaCodec) -> Result<OpenPes, AvError> {
    if data.len() < 6 {
        Err(AvError::InvalidPes { reason: "payload PES truncado (< 6 bytes)" })
    } else if data[0] != 0 || data[1] != 0 || data[2] != 1 {
        Err(AvError::InvalidPes { reason: "magic bytes PES inválidos (esperado 0x000001)" })
    } else if has_optional_header(data[3]) && data.len() < 9 {
        Err(AvError::InvalidPes { reason: "cabeçalho opcional PES truncado (< 9 bytes)" })
    } else {
        let times = if has_optional_header(data[3]) {
            header_times(data, data[7] as int / 64)
        } else {
            Ok((None, None))
        };
        match times {
            Err(e) => Err(e),
            Ok((pts, dts)) => if es_start(data) > data.len() {
                Err(AvError::InvalidPes { reason: "es_start além do fim do payload PUSI" })
            } else {
                Ok(
                    OpenPes {
                        codec,
                        pts,
                        dts,
                        data: data.skip(es_start(data)),
                        expected: if be16(data, 4) == 0 {
                            None
                        } else if be16(data, 4) < es_start(data) - 6 {
                            Some(0)
                        } else {
                            Some((be16(data, 4) - (es_start(data) - 6)) as nat)
                        },
                    },
                )
            },
        }
    }
}

/// Collects the elementary stream bytes of one stream.
#[derive(Debug)]
pub struct PesBuffer {
    codec: MediaCodec,
    pts: Option<u64>,
    dts: Option<u64>,
    data: Vec<u8>,
    expected_es_size: Option<usize>,
}

impl View for PesBuffer {
    type V = OpenPes;

    closed spec fn view(&self) -> OpenPes {
        OpenPes {
            codec: self.codec,
            pts: self.pts,
            dts: self.dts,
            data: self.data@,
            expected: match self.expected_es_size {
                Some(n) => Some(n as nat),
                None => None,
            },
        }
    }
}

impl PesBuffer {
    /// Whether all the announced bytes are there.
    fn is_complete(&self) -> (r: bool)
        ensures
            r == self@.complete(),
    {
        match self.expected_es_size {
            Some(n) => self.data.len() >= n,
            None => false,
        }
    }

    /// The packet made of what was collected.
    fn into_packet(self, pid: u16) -> (r: PesPacket)
        ensures
            r@ == self@.unit(pid),
    {
        PesPacket::new(pid, self.codec, self.pts, self.dts, bytes_from_vec(self.data))
    }
}

/// Parses the header at the start of a PES packet and starts collecting.
pub fn parse_pes_header(data: &[u8], codec: MediaCodec) -> (r: Result<PesBuffer, AvError>)
    ensures
        match r {
            Ok(buf) => pes_start(data@, codec) == Ok::<OpenPes, AvError>(buf@),
            Err(e) => pes_start(data@, codec) == Err::<OpenPes, AvError>(e),
        },
{
    if data.len() < 6 {
        return Err(AvError::InvalidPes { reason: "payload PES truncado (< 6 bytes)" });
    }
    if data[0] != 0x00 || data[1] != 0x00 || data[2] != 0x01 {
        return Err(
            AvError::InvalidPes { reason: "magic bytes PES inválidos (esperado 0x000001)" },
        );
    }
    let stream_id: u8 = data[3];
    let pes_packet_length: u16 = (data[4] as u16) * 256 + data[5] as u16;
    let optional = !(stream_id == 0xBC || stream_id == 0xBE || stream_id == 0xBF || stream_id
        == 0xF0 || stream_id == 0xF1 || stream_id == 0xFF || stream_id == 0xF2 || stream_id
        == 0xF8);
    let mut pts: Option<u64> = None;
    let mut dts: Option<u64> = None;
    let mut start: usize = 6;
    if optional {
        if data.len() < 9 {
            return Err(
                AvError::InvalidPes { reason: "cabeçalho opcional PES truncado (< 9 bytes)" },
            );
        }
        let flags2: u8 = data[7];
        let header_data_length: usize = data[8] as usize;
        assert(flags2 >> 6 == flags2 / 64) by (bit_vector);
        match decode_pts_dts(data, flags2 >> 6) {
            Ok((p, d)) => {
                pts = p;
                dts = d;
            },
            Err(e) => {
                return Err(e);
            },
        }
        start = 9 + header_data_length;
    }
    if start > data.len() {
        return Err(AvError::InvalidPes { reason: "es_start além do fim do payload PUSI" });
    }
    let mut payload: Vec<u8> = Vec::new();
    payload.extend_from_slice(vstd::slice::slice_subrange(data, start, data.len()));
    assert(payload@ =~= data@.skip(start as int));
    let expected_es_size: Option<usize> = if pes_packet_length == 0 {
        None
    } else {
        let header_overhead: usize = start - 6;
        Some((pes_packet_length as usize).saturating_sub(header_overhead))
    };
    Ok(PesBuffer { codec, pts, dts, data: payload, expected_es_size })
}

/// The streams that an assembler knows and what it is collecting for each.
#[verifier::ext_equal]
pub ghost struct AssemblerModel {
    pub codecs: Map<u16, MediaCodec>,
    pub open: Map<u16, OpenPes>,
}

impl AssemblerModel {
    /// State and finished packets after the payload `data` of a transport
    /// packet of `pid`, where `pusi` marks the start of a PES packet.
    pub open spec fn pushed(self, pid: u16, pusi: bool, data: Seq<u8>) -> (Self, Seq<PesUnit>) {
        if pusi {
            let finished = if self.open.contains_key(pid) {
                seq![self.open[pid].unit(pid)]
            } else {
                Seq::empty()
            };
            let rest = self.open.remove(pid);
            if !self.codecs.contains_key(pid) {
                (AssemblerModel { open: rest, ..self }, finished)
            } else {
                match pes_start(data, self.codecs[pid]) {
                    Ok(pes) => if pes.complete() {
                        (AssemblerModel { open: rest, ..self }, finished.push(pes.unit(pid)))
                    } else {
                        (AssemblerModel { open: rest.insert(pid, pes), ..self }, finished)
                    },
                    Err(_) => (AssemblerModel { open: rest, ..self }, finished),
                }
            }
        } else if self.open.contains_key(pid) {
            let pes = self.open[pid].extended(data);
            if pes.complete() {
                (AssemblerModel { open: self.open.remove(pid), ..self }, seq![pes.unit(pid)])
            } else {
                (AssemblerModel { open: self.open.insert(pid, pes), ..self }, Seq::empty())
            }
        } else {
            (self, Seq::empty())
        }
    }
}

/// Puts PES packets together from the payloads of transport packets.
///
/// A payload that starts a PES packet finishes the one before it; where the
/// header announces a length, the packet is finished as soon as that many bytes
/// are there.  Finished packets are offered to a bounded channel and dropped
/// when it is full.
pub struct PesAssembler {
    buffers: HashMap<u16, PesBuffer>,
    pid_codecs: HashMap<u16, MediaCodec>,
    packets: Outlet<PesPacket>,
}

impl View for PesAssembler {
    type V = AssemblerModel;

    closed spec fn view(&self) -> AssemblerModel {
        AssemblerModel {
            codecs: self.pid_codecs@,
            open: self.buffers@.map_values(|b: PesBuffer| b@),
        }
    }
}

impl PesAssembler {
    /// The channel that finished packets are offered to.
    pub closed spec fn channel(&self) -> Sender<PesPacket> {
        self.packets.channel()
    }

    /// What was offered to the channel so far, in order.
    pub closed spec fn offered(&self) -> Seq<PesUnit> {
        self.packets.offered().map_values(|p: PesPacket| p@)
    }

    /// An assembler that knows no stream yet.
    pub fn new(tx: Sender<PesPacket>) -> (r: Self)
        ensures
            r@ == (AssemblerModel { codecs: Map::empty(), open: Map::empty() }),
            r.channel() == tx,
            r.offered() == Seq::<PesUnit>::empty(),
    {
        let r = PesAssembler {
            buffers: HashMap::new(),
            pid_codecs: HashMap::new(),
            packets: Outlet::new(tx),
        };
        assert(r@.open =~= Map::empty());
        assert(r.offered() =~= Seq::<PesUnit>::empty());
        r
    }

    /// Makes the codec of a stream known.
    pub fn register_pid(&mut self, pid: u16, codec: MediaCodec)
        ensures
            final(self)@ == (AssemblerModel {
                codecs: old(self)@.codecs.insert(pid, codec),
                ..old(self)@
            }),
            final(self).channel() == old(self).channel(),
            final(self).offered() == old(self).offered(),
    {
        broadcast use vstd::std_specs::hash::group_hash_axioms;

        self.pid_codecs.insert(pid, codec);
    }

    /// Takes in the payload of a transport packet and returns the packets that
    /// this finishes, in order.
    pub fn accept(&mut self, pid: u16, pusi: bool, data: &[u8]) -> (r: Vec<PesPacket>)
        ensures
            (final(self)@, r@.map_values(|p: PesPacket| p@)) == old(self)@.pushed(
                pid,
                pusi,
                data@,
            ),
            final(self).channel() == old(self).channel(),
            final(self).offered() == old(self).offered(),
    {
        broadcast use vstd::std_specs::hash::group_hash_axioms;

        let mut finished: Vec<PesPacket> = Vec::new();
        let ghost before = self@;
        if pusi {
            if let Some(buf) = self.buffers.remove(&pid) {
                finished.push(buf.into_packet(pid));
            }
            assert(self@.open =~= before.open.remove(pid));
            let ghost first = finished@.map_values(|p: PesPacket| p@);
            assert(first =~= if before.open.contains_key(pid) {
                seq![before.open[pid].unit(pid)]
            } else {
                Seq::<PesUnit>::empty()
            });
            let codec: MediaCodec = match self.pid_codecs.get(&pid) {
                Some(c) => *c,
                None => {
                    return finished;
                },
            };
            if let Ok(buf) = parse_pes_header(data, codec) {
                if buf.is_complete() {
                    finished.push(buf.into_packet(pid));
                    assert(finished@.map_values(|p: PesPacket| p@) =~= first.push(buf@.unit(pid)));
                } else {
                    self.buffers.insert(pid, buf);
                    assert(self@.open =~= before.open.remove(pid).insert(pid, buf@));
                }
            }
        } else {
            if let Some(mut buf) = self.buffers.remove(&pid) {
                let ghost collected = buf@;
                buf.data.extend_from_slice(data);
                assert(buf.data@ =~= collected.data + data@);
                assert(buf@ == collected.extended(data@));
                if buf.is_complete() {
                    finished.push(buf.into_packet(pid));
                    assert(self@.open =~= before.open.remove(pid));
                    assert(finished@.map_values(|p: PesPacket| p@) =~= seq![buf@.unit(pid)]);
                } else {
                    self.buffers.insert(pid, buf);
                    assert(self@.open =~= before.open.insert(pid, buf@));
                    assert(finished@.map_values(|p: PesPacket| p@) =~= Seq::<PesUnit>::empty());
                }
            } else {
                assert(self@.open =~= before.open);
                assert(finished@.map_values(|p: PesPacket| p@) =~= Seq::<PesUnit>::empty());
            }
        }
        finished
    }

    /// Takes in the payload of a transport packet and offers the packets that
    /// this finishes to the channel.
    pub fn push(&mut self, pid: u16, pusi: bool, data: Bytes)
        ensures
            final(self)@ == old(self)@.pushed(pid, pusi, crate::octets::bytes_contents(data)).0,
            final(self).channel() == old(self).channel(),
            final(self).offered() == old(self).offered() + old(self)@.pushed(
                pid,
                pusi,
                crate::octets::bytes_contents(data),
            ).1,
    {
        let finished = self.accept(pid, pusi, bytes_as_slice(&data));
        let ghost after = self@;
        let ghost all = finished@.map_values(|p: PesPacket| p@);
        assert(self.offered() =~= old(self).offered() + all.take(0));
        for packet in it: finished
            invariant
                self@ == after,
                self.channel() == old(self).channel(),
                all == it.seq().map_values(|p: PesPacket| p@),
                self.offered() == old(self).offered() + all.take(it.index() as int),
        {
            let ghost before = self.offered();
            let _taken = self.packets.offer(packet);
            assert(self@ =~= after);
            assert(self.offered() =~= before.push(packet@));
            assert(all.take(it.index() + 1) =~= all.take(it.index() as int).push(packet@));
        }
        assert(all.take(all.len() as int) =~= all);
    }
}

impl AssemblerModel {
    /// State and finished packets after the continuation payloads `parts`.
    pub open spec fn continued(self, pid: u16, parts: Seq<Seq<u8>>) -> (Self, Seq<PesUnit>)
        decreases parts.len(),
    {
        if parts.len() == 0 {
            (self, Seq::empty())
        } else {
            let (next, finished) = self.pushed(pid, false, parts.first());
            let (last, more) = next.continued(pid, parts.drop_first());
            (last, finished + more)
        }
    }
}

proof fn lemma_flatten_at_least_last(parts: Seq<Seq<u8>>)
    requires
        parts.len() > 0,
    ensures
        parts.flatten().len() >= parts.last().len(),
    decreases parts.len(),
{
    if parts.len() > 1 {
        lemma_flatten_at_least_last(parts.drop_first());
        assert(parts.drop_first().last() == parts.last());
    } else {
        assert(parts.flatten() =~= parts.first() + parts.drop_first().flatten());
    }
}

/// Continuation payloads that hold exactly the bytes still missing finish the
/// packet, once and at the last of them, with all its bytes in order.
pub proof fn law_continuations_finish_the_packet(m: AssemblerModel, pid: u16, parts: Seq<Seq<u8>>)
    requires
        m.open.contains_key(pid),
        parts.len() > 0,
        parts.last().len() > 0,
        m.open[pid].expected == Some(m.open[pid].data.len() + parts.flatten().len()),
    ensures
        m.continued(pid, parts) == (
            AssemblerModel { open: m.open.remove(pid), ..m },
            seq![m.open[pid].extended(parts.flatten()).unit(pid)],
        ),
    decreases parts.len(),
{
    let pes = m.open[pid].extended(parts.first());
    assert(parts.flatten() =~= parts.first() + parts.drop_first().flatten());
    if parts.len() == 1 {
        assert(parts.drop_first() =~= Seq::empty());
        assert(parts.flatten() =~= parts.first());
        assert(pes.complete());
        assert(seq![pes.unit(pid)] + Seq::<PesUnit>::empty() =~= seq![pes.unit(pid)]);
        let next = m.pushed(pid, false, parts.first()).0;
        assert(next.continued(pid, parts.drop_first()) == (next, Seq::<PesUnit>::empty()));
    } else {
        let rest = parts.drop_first();
        assert(rest.last() == parts.last());
        lemma_flatten_at_least_last(rest);
        assert(!pes.complete());
        let next = m.pushed(pid, false, parts.first()).0;
        assert(next.open[pid] == pes);
        law_continuations_finish_the_packet(next, pid, rest);
        assert(next.open.remove(pid) =~= m.open.remove(pid));
        assert(pes.extended(rest.flatten()).data =~= m.open[pid].data + parts.flatten());
        assert(Seq::<PesUnit>::empty() + m.continued(pid, parts).1 =~= m.continued(pid, parts).1);
    }
}

/// A packet of announced length that is cut into transport payloads anywhere
/// behind its header comes out once, with exactly its elementary stream bytes.
pub proof fn law_split_packet_is_reassembled(
    m: AssemblerModel,
    pid: u16,
    pes: Seq<u8>,
    whole: OpenPes,
    cut: int,
    parts: Seq<Seq<u8>>,
)
    requires
        m.codecs.contains_key(pid),
        pes_start(pes, m.codecs[pid]) == Ok::<OpenPes, AvError>(whole),
        whole.expected == Some(whole.data.len()),
        0 <= cut < pes.len(),
        pes_start(pes.take(cut), m.codecs[pid]) is Ok,
        parts.len() > 0,
        parts.last().len() > 0,
        parts.flatten() == pes.skip(cut),
    ensures
        ({
            let (opened, earlier) = m.pushed(pid, true, pes.take(cut));
            let (after, finished) = opened.continued(pid, parts);
            &&& earlier == if m.open.contains_key(pid) {
                seq![m.open[pid].unit(pid)]
            } else {
                Seq::empty()
            }
            &&& finished == seq![whole.unit(pid)]
            &&& whole.data == pes.skip(es_start(pes))
            &&& after == AssemblerModel { open: m.open.remove(pid), ..m }
        }),
{
    let codec = m.codecs[pid];
    let head = pes.take(cut);
    let first = pes_start(head, codec)->Ok_0;
    assert(head.len() >= 9 ==> head[7] == pes[7] && head[8] == pes[8]);
    assert(es_start(head) == es_start(pes));
    if has_optional_header(pes[3]) {
        let flags = pes[7] as int / 64;
        if flags == 2 || flags == 3 {
            assert(head.subrange(9, 14) =~= pes.subrange(9, 14));
        }
        if flags == 3 {
            assert(head.subrange(14, 19) =~= pes.subrange(14, 19));
        }
    }
    assert(first.pts == whole.pts && first.dts == whole.dts && first.expected == whole.expected);
    assert(first.data + pes.skip(cut) =~= whole.data);
    assert(!first.complete());
    let opened = m.pushed(pid, true, head).0;
    assert(opened.open[pid] == first);
    law_continuations_finish_the_packet(opened, pid, parts);
    assert(first.extended(parts.flatten()) == whole);
    assert(opened.open.remove(pid) =~= m.open.remove(pid));
}

/// A packet of open length collects every continuation and comes out, with all
/// it collected, when the next packet of its stream starts.
pub proof fn law_unbounded_packet_ends_at_the_next_start(
    m: AssemblerModel,
    pid: u16,
    more: Seq<u8>,
    next: Seq<u8>,
)
    requires
        m.open.contains_key(pid),
        m.open[pid].expected is None,
    ensures
        m.pushed(pid, false, more).1 == Seq::<PesUnit>::empty(),
        m.pushed(pid, false, more).0.open[pid] == m.open[pid].extended(more),
        m.pushed(pid, true, next).1.len() >= 1,
        m.pushed(pid, true, next).1[0] == m.open[pid].unit(pid),
{
}

/// A continuation without a start, and a start of an unknown stream, are
/// ignored.
pub proof fn law_unexpected_payloads_are_ignored(m: AssemblerModel, pid: u16, data: Seq<u8>)
    requires
        !m.open.contains_key(pid),
    ensures
        m.pushed(pid, false, data) == (m, Seq::<PesUnit>::empty()),
        !m.codecs.contains_key(pid) ==> m.pushed(pid, true, data) == (m, Seq::<PesUnit>::empty()),
        m.codecs.contains_key(pid) && pes_start(data, m.codecs[pid]) is Err ==> m.pushed(
            pid,
            true,
            data,
        ) == (m, Seq::<PesUnit>::empty()),
{
    assert(m.open.remove(pid) =~= m.open);
}

/// Streams do not mix: a payload finishes packets of its own stream only and
/// leaves what is collected for the others alone.
pub proof fn law_streams_do_not_mix(
    m: AssemblerModel,
    pid: u16,
    pusi: bool,
    data: Seq<u8>,
    other: u16,
)
    requires
        other != pid,
    ensures
        forall|i: int|
            0 <= i < m.pushed(pid, pusi, data).1.len() ==> (#[trigger] m.pushed(
                pid,
                pusi,
                data,
            ).1[i]).pid == pid,
        m.pushed(pid, pusi, data).0.codecs == m.codecs,
        m.pushed(pid, pusi, data).0.open.contains_key(other) == m.open.contains_key(other),
        m.open.contains_key(other) ==> m.pushed(pid, pusi, data).0.open[other] == m.open[other],
{
}

/// The marker bits and the upper half of the first byte do not matter: five
/// bytes that carry the same 33 bits elsewhere carry the same timestamp.
pub proof fn law_only_33_bits_count(a: Seq<u8>, b: Seq<u8>)
    requires
        a.len() >= 5,
        b.len() >= 5,
        a[0] / 2 % 8 == b[0] / 2 % 8,
        a[1] == b[1],
        a[2] / 2 == b[2] / 2,
        a[3] == b[3],
        a[4] / 2 == b[4] / 2,
    ensures
        timestamp_of(a) == timestamp_of(b),
{
    let (x, y) = (a[0] as int, b[0] as int);
    assert(x % 16 / 2 == x / 2 % 8);
    assert(y % 16 / 2 == y / 2 % 8);
}

/// The bytes of a PES packet: a start code, the identifier of the stream, the
/// announced length, and what follows.
pub open spec fn pes_bytes(stream_id: u8, length: int, rest: Seq<u8>) -> Seq<u8> {
    seq![0u8, 0u8, 1u8, stream_id, (length / 256) as u8, (length % 256) as u8] + rest
}

/// The optional header of a PES packet: two bytes of flags and the length of
/// the fields, with the fields.
pub open spec fn optional_header(scrambling: u8, flags: u8, fields: Seq<u8>) -> Seq<u8> {
    seq![scrambling, flags, fields.len() as u8] + fields
}

/// Audio, video and private streams, among others, have the optional header;
/// program maps, padding, the second private stream, conditional access
/// messages, directories, control data and H.222.1 type E streams do not.
pub open spec fn plain_stream(stream_id: u8) -> bool {
    ||| stream_id == 0xBC
    ||| stream_id == 0xBE
    ||| stream_id == 0xBF
    ||| stream_id == 0xF0
    ||| stream_id == 0xF1
    ||| stream_id == 0xF2
    ||| stream_id == 0xF8
    ||| stream_id == 0xFF
}

proof fn lemma_pes_bytes(stream_id: u8, length: int, rest: Seq<u8>)
    requires
        0 <= length < 65536,
    ensures
        ({
            let data = pes_bytes(stream_id, length, rest);
            &&& data.len() == 6 + rest.len()
            &&& data[0] == 0 && data[1] == 0 && data[2] == 1 && data[3] == stream_id
            &&& be16(data, 4) == length
            &&& data.skip(6) == rest
            &&& forall|i: int| 0 <= i < rest.len() ==> data[i + 6] == #[trigger] rest[i]
        }),
{
    let data = pes_bytes(stream_id, length, rest);
    assert(data.skip(6) =~= rest);
    assert forall|i: int| 0 <= i < rest.len() implies data[i + 6] == #[trigger] rest[i] by {}
}

proof fn lemma_pes_with_header(
    stream_id: u8,
    length: int,
    scrambling: u8,
    flags: u8,
    fields: Seq<u8>,
    es: Seq<u8>,
)
    requires
        0 <= length < 65536,
        fields.len() < 256,
    ensures
        ({
            let data = pes_bytes(
                stream_id,
                length,
                optional_header(scrambling, flags, fields) + es,
            );
            &&& data.len() == 9 + fields.len() + es.len()
            &&& data[0] == 0 && data[1] == 0 && data[2] == 1 && data[3] == stream_id
            &&& be16(data, 4) == length
            &&& data[7] == flags
            &&& data[8] == fields.len()
            &&& data.skip(9 + fields.len() as int) == es
            &&& forall|i: int| 0 <= i < fields.len() ==> data[i + 9] == #[trigger] fields[i]
        }),
{
    let rest = optional_header(scrambling, flags, fields) + es;
    let data = pes_bytes(stream_id, length, rest);
    lemma_pes_bytes(stream_id, length, rest);
    assert(rest[1] == flags && rest[2] == fields.len());
    assert(data[7] == rest[1] && data[8] == rest[2]);
    assert(data.skip(9 + fields.len() as int) =~= es);
    assert forall|i: int| 0 <= i < fields.len() implies data[i + 9] == #[trigger] fields[i] by {
        assert(rest[i + 3] == fields[i]);
    }
}

/// How many elementary stream bytes a packet has whose announced length
/// counts `overhead` bytes of header too; a length of zero leaves it open.
pub open spec fn announced(length: int, overhead: int) -> Option<nat> {
    if length == 0 {
        None
    } else if length <= overhead {
        Some(0)
    } else {
        Some((length - overhead) as nat)
    }
}

/// A packet that was written with a presentation time, and perhaps a decoding
/// time, is read with just these times and just its elementary stream bytes,
/// whatever the stream, the other flags and the stuffing behind the times.
pub proof fn law_written_times_are_read(
    stream_id: u8,
    length: int,
    scrambling: u8,
    flags: u8,
    pts: int,
    dts: int,
    prefix: int,
    dts_prefix: int,
    stuffing: Seq<u8>,
    es: Seq<u8>,
    codec: MediaCodec,
)
    requires
        !plain_stream(stream_id),
        0 <= length < 65536,
        0 <= pts < 0x2_0000_0000,
        0 <= dts < 0x2_0000_0000,
        0 <= prefix < 16,
        0 <= dts_prefix < 16,
        stuffing.len() < 246,
    ensures
        flags >= 0x80 && flags < 0xC0 ==> pes_start(
            pes_bytes(
                stream_id,
                length,
                optional_header(scrambling, flags, timestamp_bytes(pts, prefix) + stuffing) + es,
            ),
            codec,
        ) == Ok::<OpenPes, AvError>(
            OpenPes {
                codec,
                pts: Some(pts as u64),
                dts: None,
                data: es,
                expected: announced(length, 8 + stuffing.len() as int),
            },
        ),
        flags >= 0xC0 ==> pes_start(
            pes_bytes(
                stream_id,
                length,
                optional_header(
                    scrambling,
                    flags,
                    timestamp_bytes(pts, prefix) + timestamp_bytes(dts, dts_prefix) + stuffing,
                ) + es,
            ),
            codec,
        ) == Ok::<OpenPes, AvError>(
            OpenPes {
                codec,
                pts: Some(pts as u64),
                dts: Some(dts as u64),
                data: es,
                expected: announced(length, 13 + stuffing.len() as int),
            },
        ),
{
    law_timestamp_round_trip(pts, prefix);
    law_timestamp_round_trip(dts, dts_prefix);
    let (p, d) = (timestamp_bytes(pts, prefix), timestamp_bytes(dts, dts_prefix));
    if flags < 0xC0 {
        let fields = p + stuffing;
        lemma_pes_with_header(stream_id, length, scrambling, flags, fields, es);
        let data = pes_bytes(stream_id, length, optional_header(scrambling, flags, fields) + es);
        assert forall|i: int| 0 <= i < 5 implies data[i + 9] == p[i] by {
            assert(data[i + 9] == fields[i]);
        }
        assert(data.subrange(9, 14) =~= p);
    } else {
        let fields = p + d + stuffing;
        lemma_pes_with_header(stream_id, length, scrambling, flags, fields, es);
        let data = pes_bytes(stream_id, length, optional_header(scrambling, flags, fields) + es);
        assert forall|i: int| 0 <= i < 5 implies data[i + 9] == p[i] && data[i + 14] == d[i] by {
            assert(data[i + 9] == fields[i]);
            assert(data[(i + 5) + 9] == fields[i + 5]);
        }
        assert(data.subrange(9, 14) =~= p);
        assert(data.subrange(14, 19) =~= d);
    }
}

/// Times are read where they stand, also where the announced length of the
/// header fields does not cover them; the elementary stream begins where that
/// length says.
pub proof fn law_times_stand_behind_the_flags(
    data: Seq<u8>,
    pts: int,
    dts: int,
    prefix: int,
    dts_prefix: int,
    codec: MediaCodec,
)
    requires
        data.len() >= 9,
        data[0] == 0,
        data[1] == 0,
        data[2] == 1,
        !plain_stream(data[3]),
        data[7] >= 0x80,
        data.len() >= 9 + data[8],
        data.len() >= if data[7] >= 0xC0 {
            19
        } else {
            14int
        },
        0 <= pts < 0x2_0000_0000,
        0 <= dts < 0x2_0000_0000,
        0 <= prefix < 16,
        0 <= dts_prefix < 16,
        data.subrange(9, 14) == timestamp_bytes(pts, prefix),
        data[7] >= 0xC0 ==> data.subrange(14, 19) == timestamp_bytes(dts, dts_prefix),
    ensures
        pes_start(data, codec) == Ok::<OpenPes, AvError>(
            OpenPes {
                codec,
                pts: Some(pts as u64),
                dts: if data[7] >= 0xC0 {
                    Some(dts as u64)
                } else {
                    None
                },
                data: data.skip(9 + data[8]),
                expected: announced(data[4] * 256 + data[5], 3 + data[8]),
            },
        ),
{
    law_timestamp_round_trip(pts, prefix);
    law_timestamp_round_trip(dts, dts_prefix);
}

/// Without flags for them there are no times, whatever the header fields hold;
/// and streams without the optional header begin right behind the length.
pub proof fn law_packets_without_times(
    stream_id: u8,
    length: int,
    scrambling: u8,
    flags: u8,
    fields: Seq<u8>,
    es: Seq<u8>,
    codec: MediaCodec,
)
    requires
        0 <= length < 65536,
        fields.len() < 256,
    ensures
        !plain_stream(stream_id) && flags < 0x40 ==> pes_start(
            pes_bytes(stream_id, length, optional_header(scrambling, flags, fields) + es),
            codec,
        ) == Ok::<OpenPes, AvError>(
            OpenPes {
                codec,
                pts: None,
                dts: None,
                data: es,
                expected: announced(length, 3 + fields.len() as int),
            },
        ),
        plain_stream(stream_id) ==> pes_start(pes_bytes(stream_id, length, es), codec) == Ok::<
            OpenPes,
            AvError,
        >(OpenPes { codec, pts: None, dts: None, data: es, expected: announced(length, 0) }),
        !plain_stream(stream_id) && 0x40 <= flags < 0x80 ==> pes_start(
            pes_bytes(stream_id, length, optional_header(scrambling, flags, fields) + es),
            codec,
        ) == Err::<OpenPes, AvError>(
            AvError::InvalidPes {
                reason: "pts_dts_flags 0b01 é reservado pelo padrão ISO 13818-1",
            },
        ),
{
    lemma_pes_with_header(stream_id, length, scrambling, flags, fields, es);
    lemma_pes_bytes(stream_id, length, es);
}

/// What is too short, or does not begin as a packet does, is refused, and the
/// reason says what is wrong.
pub proof fn law_malformed_packets_are_refused(data: Seq<u8>, codec: MediaCodec)
    ensures
        data.len() < 6 ==> pes_start(data, codec) == Err::<OpenPes, AvError>(
            AvError::InvalidPes { reason: "payload PES truncado (< 6 bytes)" },
        ),
        data.len() >= 6 && data.take(3) != seq![0u8, 0u8, 1u8] ==> pes_start(data, codec) == Err::<
            OpenPes,
            AvError,
        >(AvError::InvalidPes { reason: "magic bytes PES inválidos (esperado 0x000001)" }),
        6 <= data.len() < 9 && data.take(3) == seq![0u8, 0u8, 1u8] && !plain_stream(data[3])
            ==> pes_start(data, codec) == Err::<OpenPes, AvError>(
            AvError::InvalidPes { reason: "cabeçalho opcional PES truncado (< 9 bytes)" },
        ),
        9 <= data.len() < 14 && data.take(3) == seq![0u8, 0u8, 1u8] && !plain_stream(data[3])
            && 0x80 <= data[7] < 0xC0 ==> pes_start(data, codec) == Err::<OpenPes, AvError>(
            AvError::InvalidPes { reason: "PTS truncado no cabeçalho PES" },
        ),
        9 <= data.len() < 19 && data.take(3) == seq![0u8, 0u8, 1u8] && !plain_stream(data[3])
            && data[7] >= 0xC0 ==> pes_start(data, codec) == Err::<OpenPes, AvError>(
            AvError::InvalidPes { reason: "PTS/DTS truncado no cabeçalho PES" },
        ),
        data.len() >= 19 && data.take(3) == seq![0u8, 0u8, 1u8] && !plain_stream(data[3]) && !(0x40
            <= data[7] < 0x80) && data.len() < 9 + data[8] ==> pes_start(data, codec) == Err::<
            OpenPes,
            AvError,
        >(AvError::InvalidPes { reason: "es_start além do fim do payload PUSI" }),
        data.len() >= 6 && data.take(3) == seq![0u8, 0u8, 1u8] && plain_stream(data[3])
            ==> pes_start(data, codec) is Ok,
{
    if data.len() >= 6 {
        if data[0] == 0 && data[1] == 0 && data[2] == 1 {
            assert(data.take(3) =~= seq![0u8, 0u8, 1u8]);
        } else {
            let head = data.take(3);
            assert(head[0] == data[0] && head[1] == data[1] && head[2] == data[2]);
            if head == seq![0u8, 0u8, 1u8] {
                assert(head[0] == 0 && head[1] == 0 && head[2] == 1);
            }
        }
    }
}

/// A packet that a payload starts is finished at once where it holds as many
/// bytes as announced, or more, and is then handed out with all of them; else
/// it is kept for continuations.  What was collected before is handed out
/// first, just as it is.  A start that is refused leaves nothing behind.
pub proof fn law_starts_hand_out_what_is_complete(
    m: AssemblerModel,
    pid: u16,
    data: Seq<u8>,
    codec: MediaCodec,
    pts: Option<u64>,
    dts: Option<u64>,
    es: Seq<u8>,
    expected: Option<nat>,
)
    requires
        m.codecs.contains_key(pid),
        m.codecs[pid] == codec,
        pes_start(data, codec) == Ok::<OpenPes, AvError>(
            OpenPes { codec, pts, dts, data: es, expected },
        ),
    ensures
        ({
            let (n, finished) = m.pushed(pid, true, data);
            let before = if m.open.contains_key(pid) {
                seq![
                    PesUnit {
                        pid,
                        codec: m.open[pid].codec,
                        pts: m.open[pid].pts,
                        dts: m.open[pid].dts,
                        payload: m.open[pid].data,
                    },
                ]
            } else {
                Seq::empty()
            };
            &&& n.codecs == m.codecs
            &&& if expected is Some && es.len() >= expected->0 {
                &&& finished == before + seq![PesUnit { pid, codec, pts, dts, payload: es }]
                &&& n.open == m.open.remove(pid)
            } else {
                &&& finished == before
                &&& n.open == m.open.insert(
                    pid,
                    OpenPes { codec, pts, dts, data: es, expected },
                )
            }
        }),
{
    let (n, finished) = m.pushed(pid, true, data);
    let pes = OpenPes { codec, pts, dts, data: es, expected };
    assert(m.open.remove(pid).insert(pid, pes) =~= m.open.insert(pid, pes));
    let before = if m.open.contains_key(pid) {
        seq![m.open[pid].unit(pid)]
    } else {
        Seq::<PesUnit>::empty()
    };
    assert(before.push(pes.unit(pid)) =~= before + seq![pes.unit(pid)]);
}

/// A start of a stream without a codec, or one that is refused, still ends the
/// packet before it, and begins none.
pub proof fn law_refused_starts_end_the_packet_before(m: AssemblerModel, pid: u16, data: Seq<u8>)
    requires
        m.codecs.contains_key(pid) ==> pes_start(data, m.codecs[pid]) is Err,
        m.open.contains_key(pid),
    ensures
        m.pushed(pid, true, data).0.open == m.open.remove(pid),
        m.pushed(pid, true, data).0.codecs == m.codecs,
        m.pushed(pid, true, data).1 == seq![
            PesUnit {
                pid,
                codec: m.open[pid].codec,
                pts: m.open[pid].pts,
                dts: m.open[pid].dts,
                payload: m.open[pid].data,
            },
        ],
{
}

/// A continuation adds its bytes to what is collected.  Where that makes as
/// many as announced, or more, the packet is handed out with all of them and
/// the times that it began with; else nothing is handed out.
pub proof fn law_continuations_add_their_bytes(m: AssemblerModel, pid: u16, data: Seq<u8>)
    requires
        m.open.contains_key(pid),
    ensures
        ({
            let (n, finished) = m.pushed(pid, false, data);
            let pes = m.open[pid];
            let all = pes.data + data;
            &&& n.codecs == m.codecs
            &&& if pes.expected is Some && all.len() >= pes.expected->0 {
                &&& finished == seq![
                    PesUnit {
                        pid,
                        codec: pes.codec,
                        pts: pes.pts,
                        dts: pes.dts,
                        payload: all,
                    },
                ]
                &&& n.open == m.open.remove(pid)
            } else {
                &&& finished == Seq::<PesUnit>::empty()
                &&& n.open == m.open.insert(
                    pid,
                    OpenPes {
                        codec: pes.codec,
                        pts: pes.pts,
                        dts: pes.dts,
                        data: all,
                        expected: pes.expected,
                    },
                )
            }
        }),
{
}

/// As many ticks behind one time as lie between them stands the other, once
/// around the 33-bit circle later at most.
pub proof fn law_ticks_lead_from_one_time_to_the_other(a: u64, b: u64)
    requires
        a < 0x2_0000_0000,
        b < 0x2_0000_0000,
    ensures
        ticks_between(a, b) < 0x2_0000_0000,
        a <= b ==> a + ticks_between(a, b) == b,
        a > b ==> a + ticks_between(a, b) == b + 0x2_0000_0000,
{
}

} // verus!
