use bytes::Bytes;
use crossbeam_channel::Sender;
use vstd::prelude::*;
use vstd::string::StringExecFns;

use crate::channel::Outlet;
use crate::net::error::RtpEvent;
use crate::octets::{bytes_as_slice, bytes_slice_from};
use crate::text::push_hex;

verus! {

/// First byte of a transport stream packet.
pub const TS_SYNC_BYTE: u8 = 0x47;

/// Length of a transport stream packet.
pub const TS_PACKET_LEN: usize = 188;

/// Length of an RTP header without its optional parts.
pub const RTP_FIXED_HEADER_LEN: usize = 12;

/// Payload type of transport streams.
pub const RTP_PT_MPEGTS: u8 = 33;

/// An RTP header.
#[derive(Debug, Clone, Copy, PartialEq, Eq, Structural)]
pub struct RtpHeader {
    pub version: u8,
    pub padding: bool,
    pub extension: bool,
    pub csrc_count: u8,
    pub marker: bool,
    pub payload_type: u8,
    pub sequence: u16,
    pub timestamp: u32,
    pub ssrc: u32,
    /// Where the payload begins: behind the fixed part, the contributing
    /// sources and the extension.
    pub header_len: usize,
}

/// The 16-bit number at `i`, most significant byte first.
pub open spec fn be_u16(data: Seq<u8>, i: int) -> int {
    data[i] * 256 + data[i + 1]
}

/// The 32-bit number at `i`, most significant byte first.
pub open spec fn be_u32(data: Seq<u8>, i: int) -> int {
    be_u16(data, i) * 65536 + be_u16(data, i + 2)
}

/// Length of the fixed part and the contributing sources.
pub open spec fn sources_end(data: Seq<u8>) -> int {
    RTP_FIXED_HEADER_LEN + 4 * (data[0] % 16)
}

pub open spec fn has_extension(data: Seq<u8>) -> bool {
    data[0] / 16 % 2 == 1
}

/// Where the payload begins: an extension has four bytes of its own, the last
/// two of which count the 32-bit words that follow.
pub open spec fn payload_start(data: Seq<u8>) -> int {
    let end = sources_end(data);
    if has_extension(data) {
        end + 4 + 4 * be_u16(data, end + 2)
    } else {
        end
    }
}

/// Whether the data begin with a whole RTP header.
pub open spec fn is_rtp(data: Seq<u8>) -> bool {
    &&& data.len() >= RTP_FIXED_HEADER_LEN
    &&& data[0] / 64 == 2
    &&& data.len() >= sources_end(data)
    &&& has_extension(data) ==> data.len() >= sources_end(data) + 4
    &&& data.len() >= payload_start(data)
}

/// The header that the data begin with.
pub open spec fn header_of(data: Seq<u8>) -> Option<RtpHeader> {
    if is_rtp(data) {
        Some(
            RtpHeader {
                version: 2,
                padding: data[0] / 32 % 2 == 1,
                extension: has_extension(data),
                csrc_count: data[0] % 16,
                marker: data[1] >= 128,
                payload_type: data[1] % 128,
                sequence: be_u16(data, 2) as u16,
                timestamp: be_u32(data, 4) as u32,
                ssrc: be_u32(data, 8) as u32,
                header_len: payload_start(data) as usize,
            },
        )
    } else {
        None
    }
}

fn read_u16(data: &[u8], i: usize) -> (r: u16)
    requires
        i + 2 <= data@.len(),
    ensures
        r == be_u16(data@, i as int),
{
    assert(data.len() == data@.len());
    data[i] as u16 * 256 + data[i + 1] as u16
}

fn read_u32(data: &[u8], i: usize) -> (r: u32)
    requires
        i + 4 <= data@.len(),
    ensures
        r == be_u32(data@, i as int),
{
    assert(data.len() == data@.len());
    read_u16(data, i) as u32 * 65536 + read_u16(data, i + 2) as u32
}

impl RtpHeader {
    /// Reads the header that the data begin with, if they do.
    pub fn parse(data: &[u8]) -> (r: Option<Self>)
        ensures
            r == header_of(data@),
    {
        if data.len() < RTP_FIXED_HEADER_LEN {
            return None;
        }
        let b0: u8 = data[0];
        let b1: u8 = data[1];
        if b0 / 64 != 2 {
            return None;
        }
        let csrc_count: u8 = b0 % 16;
        let extension = b0 / 16 % 2 == 1;
        let mut header_len: usize = RTP_FIXED_HEADER_LEN + 4 * csrc_count as usize;
        if data.len() < header_len {
            return None;
        }
        if extension {
            if data.len() < header_len + 4 {
                return None;
            }
            let words: usize = read_u16(data, header_len + 2) as usize;
            header_len = header_len + 4 + words * 4;
            if data.len() < header_len {
                return None;
            }
        }
        Some(
            RtpHeader {
                version: 2,
                padding: b0 / 32 % 2 == 1,
                extension,
                csrc_count,
                marker: b1 >= 128,
                payload_type: b1 % 128,
                sequence: read_u16(data, 2),
                timestamp: read_u32(data, 4),
                ssrc: read_u32(data, 8),
                header_len,
            },
        )
    }

    /// The synchronisation source as text.
    pub fn ssrc_hex(&self) -> (r: String)
        ensures
            r@ == "0x"@ + crate::text::fixed_hex(self.ssrc as nat, 8, true),
    {
        let mut s = String::from_str("0x");
        push_hex(&mut s, self.ssrc as u64, 8, true);
        s
    }
}

/// How a payload divides into transport stream packets.
#[derive(Debug, Clone, Copy, PartialEq, Eq, Structural)]
pub struct TsPayloadShape {
    /// Whole packets.
    pub ts_packets: usize,
    /// Whether it consists of whole packets, the first of which begins as one
    /// should.
    pub well_formed: bool,
}

/// How many transport stream packets a payload has room for.
pub open spec fn whole_ts_packets(payload: Seq<u8>) -> int {
    payload.len() as int / TS_PACKET_LEN as int
}

/// Whether a payload is made of transport stream packets, as far as its length
/// and its first byte tell.
pub open spec fn is_ts_payload(payload: Seq<u8>) -> bool {
    &&& payload.len() > 0
    &&& payload.len() as int % TS_PACKET_LEN as int == 0
    &&& payload[0] == TS_SYNC_BYTE
}

/// How a payload divides into transport stream packets.
pub fn ts_payload_shape(payload: &[u8]) -> (r: TsPayloadShape)
    ensures
        r.ts_packets == whole_ts_packets(payload@),
        r.well_formed == is_ts_payload(payload@),
{
    let n: usize = payload.len();
    let well_formed = n > 0 && n % TS_PACKET_LEN == 0 && payload[0] == TS_SYNC_BYTE;
    TsPayloadShape { ts_packets: n / TS_PACKET_LEN, well_formed }
}

/// Whether the header of a datagram is to be removed: it is an RTP packet with
/// a transport stream in it.
pub open spec fn is_wrapped(data: Seq<u8>) -> bool {
    &&& !(data.len() > 0 && data[0] == TS_SYNC_BYTE)
    &&& is_rtp(data)
    &&& data[1] % 128 == RTP_PT_MPEGTS
}

/// A datagram without its RTP header.
pub open spec fn stripped(data: Seq<u8>) -> Seq<u8> {
    if is_wrapped(data) {
        data.skip(payload_start(data))
    } else {
        data
    }
}

/// The number expected behind `last`; number zero is left out.
pub open spec fn expected_after(last: u16) -> u16 {
    if last == 0xFFFF {
        1
    } else {
        (last + 1) as u16
    }
}

/// What is reported of a packet's number, after the number of the last one.
pub open spec fn event_of(last: Option<u16>, seq: u16) -> Option<RtpEvent> {
    match last {
        Some(last) if seq != expected_after(last) => Some(
            RtpEvent::OutOfOrder { expected: expected_after(last), got: seq },
        ),
        _ => None,
    }
}

/// `events`, followed by what is reported of a packet's number.
pub open spec fn reported(events: Seq<RtpEvent>, last: Option<u16>, seq: u16) -> Seq<RtpEvent> {
    match event_of(last, seq) {
        Some(event) => events.push(event),
        None => events,
    }
}

/// What is reported of a packet's number, after the number of the last one.
pub fn sequence_event(last: Option<u16>, seq: u16) -> (r: Option<RtpEvent>)
    ensures
        r == event_of(last, seq),
{
    match last {
        Some(last) => {
            let expected: u16 = if last == 0xFFFF {
                1
            } else {
                last + 1
            };
            if seq != expected {
                Some(RtpEvent::OutOfOrder { expected, got: seq })
            } else {
                None
            }
        },
        None => None,
    }
}

/// Removes RTP headers from datagrams and reports gaps in their numbers.
pub struct RtpStripper {
    last_seq: Option<u16>,
    events: Outlet<RtpEvent>,
}

impl RtpStripper {
    /// The number of the last packet.
    pub closed spec fn last(&self) -> Option<u16> {
        self.last_seq
    }

    /// The channel that is reported to.
    pub closed spec fn channel(&self) -> Sender<RtpEvent> {
        self.events.channel()
    }

    /// The events offered to the channel so far, in order.
    pub closed spec fn offered(&self) -> Seq<RtpEvent> {
        self.events.offered()
    }

    /// A stripper that reports to the given channel.
    pub fn new(event_tx: Sender<RtpEvent>) -> (r: Self)
        ensures
            r.last() is None,
            r.channel() == event_tx,
            r.offered() == Seq::<RtpEvent>::empty(),
    {
        RtpStripper { last_seq: None, events: Outlet::new(event_tx) }
    }

    /// Removes the RTP header of a datagram, if it has one, and offers the
    /// channel what is reported of its number.
    pub fn strip(&mut self, data: Bytes) -> (r: Bytes)
        ensures
            crate::octets::bytes_contents(r) == stripped(crate::octets::bytes_contents(data)),
            final(self).last() == if is_wrapped(crate::octets::bytes_contents(data)) {
                Some(be_u16(crate::octets::bytes_contents(data), 2) as u16)
            } else {
                old(self).last()
            },
            final(self).channel() == old(self).channel(),
            final(self).offered() == if is_wrapped(crate::octets::bytes_contents(data)) {
                reported(
                    old(self).offered(),
                    old(self).last(),
                    be_u16(crate::octets::bytes_contents(data), 2) as u16,
                )
            } else {
                old(self).offered()
            },
    {
        let content: &[u8] = bytes_as_slice(&data);
        if content.len() > 0 && content[0] == TS_SYNC_BYTE {
            return data;
        }
        let header: RtpHeader = match RtpHeader::parse(content) {
            Some(header) => header,
            None => return data,
        };
        if header.payload_type != RTP_PT_MPEGTS {
            return data;
        }
        self.check_sequence(header.sequence);
        bytes_slice_from(&data, header.header_len)
    }

    /// Reports a number that was not expected.
    fn check_sequence(&mut self, seq: u16)
        ensures
            final(self).last() == Some(seq),
            final(self).channel() == old(self).channel(),
            final(self).offered() == reported(old(self).offered(), old(self).last(), seq),
    {
        if let Some(event) = sequence_event(self.last_seq, seq) {
            let _taken = self.events.offer(event);
        }
        self.last_seq = Some(seq);
    }
}

/// An RTP packet: the fixed header, contributing sources, an extension or
/// none, and the payload.
pub open spec fn packet_layout(
    header: RtpHeader,
    sources: Seq<u8>,
    extension: Option<(u16, Seq<u8>)>,
    payload: Seq<u8>,
) -> Seq<u8> {
    fixed_layout(header) + sources + match extension {
        Some((profile, body)) => crate::net::fec::be16(profile) + crate::net::fec::be16(
            (body.len() as int / 4) as u16,
        ) + body,
        None => Seq::empty(),
    } + payload
}

/// The fixed part of a header.
pub open spec fn fixed_layout(header: RtpHeader) -> Seq<u8> {
    seq![
        (128 + crate::net::fec::bit(header.padding, 32) + crate::net::fec::bit(
            header.extension,
            16,
        ) + header.csrc_count) as u8,
        (crate::net::fec::bit(header.marker, 128) + header.payload_type) as u8,
    ] + crate::net::fec::be16(header.sequence) + crate::net::fec::be32(header.timestamp)
        + crate::net::fec::be32(header.ssrc)
}

/// Whether the parts of a packet go together.
pub open spec fn is_consistent(
    header: RtpHeader,
    sources: Seq<u8>,
    extension: Option<(u16, Seq<u8>)>,
) -> bool {
    &&& header.version == 2
    &&& header.csrc_count < 16
    &&& header.payload_type < 128
    &&& sources.len() == 4 * header.csrc_count
    &&& header.extension == (extension is Some)
    &&& match extension {
        Some((_, body)) => {
            &&& body.len() as int % 4 == 0
            &&& body.len() as int / 4 <= 0xFFFF
            &&& header.header_len == 16 + sources.len() + body.len()
        },
        None => header.header_len == 12 + sources.len(),
    }
}

proof fn lemma_fixed_layout(header: RtpHeader)
    requires
        header.csrc_count < 16,
        header.payload_type < 128,
    ensures
        ({
            let s = fixed_layout(header);
            &&& s.len() == 12
            &&& s[0] / 64 == 2
            &&& (s[0] / 32 % 2 == 1) == header.padding
            &&& (s[0] / 16 % 2 == 1) == header.extension
            &&& s[0] % 16 == header.csrc_count
            &&& (s[1] >= 128) == header.marker
            &&& s[1] % 128 == header.payload_type
            &&& be_u16(s, 2) == header.sequence
            &&& be_u32(s, 4) == header.timestamp
            &&& be_u32(s, 8) == header.ssrc
        }),
{
    let s = fixed_layout(header);
    assert(s[0] == 128 + crate::net::fec::bit(header.padding, 32) + crate::net::fec::bit(
        header.extension,
        16,
    ) + header.csrc_count);
    assert(s[1] == crate::net::fec::bit(header.marker, 128) + header.payload_type);
    assert(s[2] == header.sequence / 256 && s[3] == header.sequence % 256);
    assert(s[4] == header.timestamp / 16_777_216 && s[5] == header.timestamp / 65536 % 256);
    assert(s[6] == header.timestamp / 256 % 256 && s[7] == header.timestamp % 256);
    assert(s[8] == header.ssrc / 16_777_216 && s[9] == header.ssrc / 65536 % 256);
    assert(s[10] == header.ssrc / 256 % 256 && s[11] == header.ssrc % 256);
}

/// Every field of a packet's header is read back, and where its payload
/// begins.
pub proof fn law_header_is_read_back(
    header: RtpHeader,
    sources: Seq<u8>,
    extension: Option<(u16, Seq<u8>)>,
    payload: Seq<u8>,
)
    requires
        is_consistent(header, sources, extension),
    ensures
        header_of(packet_layout(header, sources, extension, payload)) == Some(header),
        packet_layout(header, sources, extension, payload).skip(header.header_len as int)
            == payload,
{
    let s = packet_layout(header, sources, extension, payload);
    let fixed = fixed_layout(header);
    lemma_fixed_layout(header);
    assert(forall|i: int| 0 <= i < 12 ==> s[i] == fixed[i]);
    let end = 12 + sources.len() as int;
    match extension {
        Some((profile, body)) => {
            let words = (body.len() as int / 4) as u16;
            let ext = crate::net::fec::be16(profile) + crate::net::fec::be16(words) + body;
            assert(s[end + 2] == ext[2] && s[end + 3] == ext[3]);
            assert(ext[2] == words / 256 && ext[3] == words % 256);
            assert(be_u16(s, end + 2) == words);
            assert(s.len() == end + ext.len() + payload.len());
        },
        None => {
            assert(s.len() == end + payload.len());
        },
    }
    assert(s.skip(header.header_len as int) =~= payload);
}

/// The payload of a transport stream packet comes back without its header, and
/// what has no header comes back as it is.
pub proof fn law_stripping_gives_the_payload(
    header: RtpHeader,
    sources: Seq<u8>,
    extension: Option<(u16, Seq<u8>)>,
    payload: Seq<u8>,
    plain: Seq<u8>,
)
    requires
        is_consistent(header, sources, extension),
        header.payload_type == RTP_PT_MPEGTS,
        plain.len() > 0,
        plain[0] == TS_SYNC_BYTE,
    ensures
        stripped(packet_layout(header, sources, extension, payload)) == payload,
        stripped(plain) == plain,
{
    law_header_is_read_back(header, sources, extension, payload);
    lemma_fixed_layout(header);
    let s = packet_layout(header, sources, extension, payload);
    assert(s[0] == fixed_layout(header)[0]);
    assert(s[1] == fixed_layout(header)[1]);
}

/// What is too short for the header that it begins, or is of another version,
/// is no RTP packet.
pub proof fn law_incomplete_headers_are_not_rtp(data: Seq<u8>)
    ensures
        data.len() < 12 ==> header_of(data) is None,
        data.len() > 0 && !(128 <= data[0] < 192) ==> header_of(data) is None,
        data.len() >= 12 && data.len() < 12 + data[0] % 16 * 4 ==> header_of(data) is None,
        data.len() >= 12 && data[0] / 16 % 2 == 1 && data.len() < 16 + data[0] % 16 * 4
            ==> header_of(data) is None,
        data.len() >= 12 && 128 <= data[0] < 192 && data[0] / 16 % 2 == 1 && data.len() >= 16
            + data[0] % 16 * 4 ==> ({
            let end = 12 + data[0] % 16 * 4;
            let words = data[end + 2] * 256 + data[end + 3];
            header_of(data) is Some <==> data.len() >= end + 4 + 4 * words
        }),
{
}

/// Only the header of a packet that carries a transport stream is removed:
/// packets of other types, what is no packet, and what begins as a transport
/// stream itself come back as they are.
pub proof fn law_other_datagrams_are_left_alone(data: Seq<u8>)
    ensures
        data.len() > 1 && data[1] % 128 != 33 ==> stripped(data) == data,
        header_of(data) is None ==> stripped(data) == data,
        data.len() > 0 && data[0] == 0x47 ==> stripped(data) == data,
        data.len() > 1 && data[1] % 128 == 33 && header_of(data) is Some ==> stripped(data)
            == data.skip(header_of(data)->0.header_len as int) || data[0] == 0x47,
{
    assert(data.skip(0) =~= data);
}

/// A number that follows the last one is not reported, and any other is, with
/// what was expected; the first one of all is never.
pub proof fn law_numbers_out_of_row_are_reported(last: u16, seq: u16, events: Seq<RtpEvent>)
    ensures
        event_of(None, seq) is None,
        reported(events, None, seq) == events,
        last < 0xFFFF && seq == last + 1 ==> reported(events, Some(last), seq) == events,
        last < 0xFFFF && seq != last + 1 ==> reported(events, Some(last), seq) == events.push(
            RtpEvent::OutOfOrder { expected: (last + 1) as u16, got: seq },
        ),
        last == 0xFFFF && seq == 1 ==> reported(events, Some(last), seq) == events,
        last == 0xFFFF && seq != 1 ==> reported(events, Some(last), seq) == events.push(
            RtpEvent::OutOfOrder { expected: 1, got: seq },
        ),
{
}

/// A transport stream packet takes 188 bytes and begins with 0x47; bytes left
/// over, or another first byte, make a payload something else.
pub proof fn law_payloads_divide_into_packets(payload: Seq<u8>, packets: int, rest: int)
    requires
        0 <= packets,
        0 <= rest < 188,
        payload.len() == 188 * packets + rest,
    ensures
        whole_ts_packets(payload) == packets,
        is_ts_payload(payload) <==> packets > 0 && rest == 0 && payload[0] == 0x47,
{
}

} // verus!
