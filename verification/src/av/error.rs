use crate::text::{push_decimal, push_hex, push_signed};
use vstd::prelude::*;
use vstd::string::StringExecFns;

verus! {

/// What can go wrong between a transport stream and the screen.
#[derive(Debug)]
pub enum AvError {
    /// The stream type is of no codec that is decoded here.
    UnsupportedCodec { stream_type: u8 },
    /// A PES packet is malformed or cut short.
    InvalidPes { reason: &'static str },
    /// A decoder call returned this negative code.
    FfmpegError { code: i32 },
    /// The decoder libraries could not be found or lack a symbol.
    FfmpegUnavailable { message: String },
    /// The output channel was full and a frame was dropped.
    ChannelFull { pid: u16 },
    /// Hardware decoding could not be set up.
    HwInitFailed(String),
    /// The graphics device was removed or reset by its driver.
    HwDeviceRemoved(String),
    /// Anything else, with its description.
    Other(String),
}

impl AvError {
    /// The text shown for the error.
    pub open spec fn message_spec(&self) -> Seq<char> {
        match self {
            AvError::UnsupportedCodec { stream_type } => "codec não suportado: stream_type=0x"@
                + crate::text::fixed_hex(*stream_type as nat, 2, true),
            AvError::InvalidPes { reason } => "PES packet inválido: "@ + reason@,
            AvError::FfmpegError { code } => "erro FFmpeg: código "@
                + crate::text::signed_decimal(*code as int),
            AvError::FfmpegUnavailable { message } => "FFmpeg indisponível: "@ + message@,
            AvError::ChannelFull { pid } => "canal cheio; frame descartado no PID "@
                + crate::text::decimal(*pid as nat),
            AvError::HwInitFailed(reason) => "falha na inicialização de hwaccel: "@ + reason@,
            AvError::HwDeviceRemoved(reason) => "device D3D11 removido/resetado: "@ + reason@,
            AvError::Other(description) => description@,
        }
    }

    /// The text shown for the error.
    pub fn message(&self) -> (r: String)
        ensures
            r@ == self.message_spec(),
    {
        match self {
            AvError::UnsupportedCodec { stream_type } => {
                let mut s = String::from_str("codec não suportado: stream_type=0x");
                push_hex(&mut s, *stream_type as u64, 2, true);
                s
            },
            AvError::InvalidPes { reason } => {
                let mut s = String::from_str("PES packet inválido: ");
                s.append(reason);
                s
            },
            AvError::FfmpegError { code } => {
                let mut s = String::from_str("erro FFmpeg: código ");
                push_signed(&mut s, *code as i64);
                s
            },
            AvError::FfmpegUnavailable { message } => {
                let mut s = String::from_str("FFmpeg indisponível: ");
                s.append(message.as_str());
                s
            },
            AvError::ChannelFull { pid } => {
                let mut s = String::from_str("canal cheio; frame descartado no PID ");
                push_decimal(&mut s, *pid as u64);
                s
            },
            AvError::HwInitFailed(reason) => {
                let mut s = String::from_str("falha na inicialização de hwaccel: ");
                s.append(reason.as_str());
                s
            },
            AvError::HwDeviceRemoved(reason) => {
                let mut s = String::from_str("device D3D11 removido/resetado: ");
                s.append(reason.as_str());
                s
            },
            AvError::Other(description) => description.clone(),
        }
    }

    /// Whether the error means that the graphics device was lost.
    pub fn is_device_removed(&self) -> (r: bool)
        ensures
            r == (self is HwDeviceRemoved),
    {
        match self {
            AvError::HwDeviceRemoved(_) => true,
            _ => false,
        }
    }
}

/// A stream type that is not decoded is shown by its two hexadecimal digits,
/// a decoder's code with its sign, and a full channel by the stream's number.
pub proof fn law_errors_show_their_numbers(stream_type: u8, code: i32, pid: u16)
    ensures
        (AvError::UnsupportedCodec { stream_type }).message_spec()
            == "codec não suportado: stream_type=0x"@ + seq![
            "0123456789ABCDEF"@[stream_type as int / 16],
            "0123456789ABCDEF"@[stream_type as int % 16],
        ],
        code < 0 ==> (AvError::FfmpegError { code }).message_spec() == "erro FFmpeg: código "@ + (
        seq!['-'] + crate::text::decimal((-code) as nat)),
        code >= 0 ==> (AvError::FfmpegError { code }).message_spec() == "erro FFmpeg: código "@
            + crate::text::decimal(code as nat),
        (AvError::ChannelFull { pid }).message_spec() == "canal cheio; frame descartado no PID "@
            + crate::text::decimal(pid as nat),
{
    let n = stream_type as nat;
    crate::text::law_hex_digits_have_their_places(n, 2, 0);
    crate::text::law_hex_digits_have_their_places(n, 2, 1);
    reveal_with_fuel(crate::text::sixteens, 2);
    assert(n / 1 == n);
    assert(n / 16 % 16 == n / 16);
    assert(crate::text::fixed_hex(n, 2, true) =~= seq![
        "0123456789ABCDEF"@[stream_type as int / 16],
        "0123456789ABCDEF"@[stream_type as int % 16],
    ]);
}

} // verus!
