use bytes::Bytes;
use crossbeam_channel::bounded;
use ironplayer::net::error::{NetError, NetEvent, RtpEvent};
use ironplayer::net::fec::{fec_ports, FecHeader, FecMatrix, FecMatrixHint};
use ironplayer::net::ipv4::{unspecified_source, Ipv4Addr, SocketAddrV4};
use ironplayer::net::receiver::{ReceiveAction, ReceiveOutcome, ReceiverConfig, UdpReceiver};
use ironplayer::net::rtp::{sequence_event, RtpHeader, RtpStripper};
use ironplayer::net::rtp_seq::{RtpSeqState, SeqOutcome};
use ironplayer::net::source::capture::CaptureSource;
use ironplayer::net::source::{
    effective_binding, is_interrupted, is_timeout, receive_failure, Datagram, IoFailure, JoinStep,
    SocketSourceConfig, SourceBinding, SourceCapabilities,
};
use ironplayer::net::stop::StopToken;
use ironplayer::net::url::StreamUrl;

fn addr(a: u8, b: u8, c: u8, d: u8) -> Ipv4Addr {
    Ipv4Addr { a, b, c, d }
}

fn fault(url: &str) -> NetError {
    StreamUrl::parse(url).unwrap_err()
}

#[test]
fn addresses_are_read_back_from_their_text() {
    for a in [
        addr(0, 0, 0, 0),
        addr(1, 22, 133, 244),
        addr(239, 255, 255, 250),
        addr(255, 255, 255, 255),
    ] {
        assert_eq!(Ipv4Addr::parse(&a.to_text()), Some(a));
    }
    assert_eq!(addr(10, 0, 0, 7).to_text(), "10.0.0.7");
}

#[test]
fn nothing_else_is_an_address() {
    for text in [
        "",
        ".",
        "1.2.3",
        "1.2.3.",
        "1.2.3.4.",
        "1.2.3.4.5",
        "01.2.3.4",
        "1.2.3.00",
        "256.1.1.1",
        "1.2.3.999999999999999999999",
        "1.2.3.-4",
        "1.2.3.4 ",
        "a.b.c.d",
    ] {
        assert_eq!(Ipv4Addr::parse(text), None, "{text}");
    }
}

#[test]
fn addresses_and_ports_have_distinct_numbers() {
    let x = SocketAddrV4 { ip: addr(1, 2, 3, 4), port: 5 };
    let y = SocketAddrV4 { ip: addr(1, 2, 3, 4), port: 6 };
    let z = SocketAddrV4 { ip: addr(1, 2, 3, 5), port: 5 };
    assert_eq!(x.to_key(), 0x0102_0304_0005);
    assert_ne!(x.to_key(), y.to_key());
    assert_ne!(x.to_key(), z.to_key());
    assert_eq!(unspecified_source().to_key(), 0);
}

#[test]
fn urls_are_read_back_as_written() {
    assert_eq!(
        StreamUrl::parse("rtp://@224.0.0.1:65535?iface=10.1.2.3").unwrap(),
        StreamUrl::RtpMulticast {
            group: addr(224, 0, 0, 1),
            port: 65535,
            iface: Some(addr(10, 1, 2, 3)),
        }
    );
}

#[test]
fn urls_may_vary_in_form() {
    let plain = StreamUrl::parse("udp://@239.1.1.1:1234").unwrap();
    for url in [
        "UDP://@239.1.1.1:1234",
        "Udp://239.1.1.1:1234",
        "udp://239.1.1.1:+1234",
        "udp://239.1.1.1:0001234",
        "udp://239.1.1.1:1234?",
        "udp://239.1.1.1:1234?ttl=3&iface",
    ] {
        assert_eq!(StreamUrl::parse(url).unwrap(), plain, "{url}");
    }
    assert_eq!(
        StreamUrl::parse("udp://@239.1.1.1:1234?ttl=3&iface=1.2.3.4&iface=x").unwrap(),
        StreamUrl::UdpMulticast {
            group: addr(239, 1, 1, 1),
            port: 1234,
            iface: Some(addr(1, 2, 3, 4)),
        }
    );
}

#[test]
fn unreadable_urls_say_why() {
    assert!(matches!(fault("239.1.1.1:1234"), NetError::MalformedUrl(s) if s == "239.1.1.1:1234"));
    assert!(matches!(fault("udp://@239.1.1.1"), NetError::MalformedUrl(s) if s == "udp://@239.1.1.1"));
    assert!(matches!(fault("udp://@239.1.1:1"), NetError::MalformedUrl(s) if s == "endereço inválido: 239.1.1"));
    assert!(matches!(fault("udp://@239.1.1.1:70000"), NetError::MalformedUrl(s) if s == "porta inválida: 70000"));
    assert!(matches!(fault("udp://@239.1.1.1:+"), NetError::MalformedUrl(s) if s == "porta inválida: +"));
    assert!(matches!(
        fault("udp://@239.1.1.1:1?iface=no"),
        NetError::MalformedUrl(s) if s == "iface inválido: no em udp://@239.1.1.1:1?iface=no"
    ));
    assert!(matches!(fault("udp://@240.0.0.1:1"), NetError::NotMulticast(a) if a == addr(240, 0, 0, 1)));
    assert!(matches!(fault("udp://@223.0.0.1:0"), NetError::NotMulticast(_)));
    assert!(matches!(fault("rtp://@224.0.0.1:0?iface=no"), NetError::InvalidPort));
}

#[test]
fn unknown_schemes_are_told_in_lower_case() {
    assert!(matches!(fault("HTTPÄ://x"), NetError::UnknownScheme(s) if s == "httpä"));
}

#[test]
fn errors_have_their_texts() {
    assert_eq!(
        NetError::NotMulticast(addr(10, 0, 0, 1)).message(),
        "endereço não é multicast: 10.0.0.1"
    );
    assert_eq!(NetError::InvalidPort.message(), "porta inválida: 0");
    assert_eq!(
        NetError::UnknownScheme("http".to_string()).message(),
        "esquema de URL não suportado: http"
    );
    assert_eq!(NetError::MalformedUrl("x".to_string()).message(), "URL malformada: x");
    assert_eq!(
        NetError::JoinFailed("y".to_string()).message(),
        "falha ao entrar no grupo multicast: y"
    );
    assert_eq!(NetError::Io("z".to_string()).message(), "erro de I/O: z");
}

#[test]
fn fec_fields_do_not_overlap() {
    let mut data = [0u8; 16];
    data[4] = 0xFF;
    data[12] = 0b1010_1011;
    let h = FecHeader::parse(&data).unwrap();
    assert!(h.extension);
    assert_eq!(h.pt_recovery, 127);
    assert!(h.x);
    assert!(!h.d);
    assert_eq!(h.fec_type, 5);
    assert_eq!(h.index, 3);
    for i in 0..16 {
        let mut other = data;
        other[i] ^= 1;
        assert_ne!(FecHeader::parse(&other).unwrap(), h, "byte {i}");
    }
}

#[test]
fn the_matrix_is_the_same_in_either_order() {
    let row = FecMatrixHint { l: Some(10), d: None };
    let column = FecMatrixHint { l: Some(10), d: Some(6) };
    let mut a = FecMatrix::default();
    a.absorb(row);
    a.absorb(column);
    let mut b = FecMatrix::default();
    b.absorb(column);
    b.absorb(row);
    assert_eq!(a, b);
    assert_eq!(a.lxd(), Some(60));
    assert_eq!(FecMatrix { l: None, d: Some(5) }.label(), "—×5");
    assert_eq!(FecMatrixHint::default(), FecMatrixHint { l: None, d: None });
}

#[test]
fn ports_do_not_wrap() {
    assert_eq!(fec_ports(65_531, [2, 4]), Some((65_533, 65_535)));
    assert_eq!(fec_ports(65_532, [2, 4]), None);
    assert_eq!(fec_ports(65_535, [2, 0]), None);
}

#[test]
fn stripping_gives_the_payload_behind_sources_and_extension() {
    let mut packet = vec![
        0xB2, 0x21, 0x00, 0x07, 0, 0, 0, 1, 0, 0, 0, 2, 9, 9, 9, 9, 8, 8, 8, 8, 0xAB, 0xCD, 0x00,
        0x02, 1, 2, 3, 4, 5, 6, 7, 8,
    ];
    let header = RtpHeader::parse(&packet).unwrap();
    assert_eq!(header.header_len, 32);
    packet.extend_from_slice(&[0x47, 0x11, 0x22]);
    let (tx, _rx) = bounded(4);
    let mut stripper = RtpStripper::new(tx);
    assert_eq!(stripper.strip(Bytes::from(packet.clone())).as_ref(), &[0x47, 0x11, 0x22]);

    packet.truncate(32);
    assert!(stripper.strip(Bytes::from(packet.clone())).is_empty());

    packet[1] = 0x22;
    assert_eq!(stripper.strip(Bytes::from(packet.clone())).as_ref(), packet.as_slice());
}

#[test]
fn unexpected_numbers_are_reported_once() {
    assert_eq!(sequence_event(None, 5), None);
    assert_eq!(sequence_event(Some(5), 6), None);
    assert_eq!(
        sequence_event(Some(0xFFFF), 0),
        Some(RtpEvent::OutOfOrder { expected: 1, got: 0 })
    );
    let (tx, rx) = bounded(4);
    let mut stripper = RtpStripper::new(tx);
    for seq in [3u8, 5, 6] {
        let _ = stripper.strip(Bytes::from(vec![0x80, 33, 0, seq, 0, 0, 0, 0, 0, 0, 0, 0, 0x47]));
    }
    let events: Vec<RtpEvent> = rx.try_iter().collect();
    assert_eq!(events, vec![RtpEvent::OutOfOrder { expected: 4, got: 5 }]);
}

#[test]
fn every_number_is_accounted_for() {
    let mut s = RtpSeqState::new(9);
    assert_eq!(s.ssrc(), 9);
    for seq in [10u16, 12, 15, 14, 12, 20] {
        s.observe(seq, 1_000);
    }
    let c = s.counters();
    assert_eq!(c.received + c.pending as u64, 11);
    assert_eq!(c.dup, 1);
    assert_eq!(s.flush(), 6);
    let c = s.counters();
    assert_eq!(c.received, 5);
    assert_eq!(c.missing_confirmed, 6);
    assert_eq!(c.pending, 0);
    assert_eq!(s.observe(16, 2_000), SeqOutcome::TooOld);
    assert_eq!(s.counters().missing_confirmed, 6);
}

fn receiver() -> UdpReceiver {
    let url = StreamUrl::parse("udp://@239.1.1.1:1234?iface=127.0.0.1").unwrap();
    UdpReceiver::new(url, ReceiverConfig::default())
}

#[test]
fn reception_reports_its_cycle() {
    let mut r = receiver();
    assert_eq!(r.target(), (addr(239, 1, 1, 1), 1234, Some(addr(127, 0, 0, 1))));
    assert_eq!(r.socket_config(), SocketSourceConfig::default());
    let (events, action) = r.step(ReceiveOutcome::Nothing);
    assert!(events.is_empty());
    assert_eq!(action, ReceiveAction::Done);

    let binding =
        effective_binding(addr(239, 1, 1, 1), 1234, Some(addr(127, 0, 0, 1)), None, Some(4096));
    let events = r.joined(binding);
    assert!(matches!(events[0], NetEvent::Joined(b) if b == binding));
    assert!(matches!(events[1], NetEvent::Started));
    assert_eq!(events.len(), 2);

    let (events, action) = r.step(ReceiveOutcome::Nothing);
    assert!(matches!(events[0], NetEvent::Timeout));
    assert_eq!(action, ReceiveAction::Continue);

    let (events, action) = r.step(ReceiveOutcome::Stopped);
    assert_eq!(action, ReceiveAction::Leave);
    assert!(matches!(events[0], NetEvent::Left));
    assert!(matches!(events[1], NetEvent::Stopped));
    assert_eq!(r.step(ReceiveOutcome::Failed).1, ReceiveAction::Done);
}

#[test]
fn senders_are_announced_once() {
    let mut r = receiver();
    let x = SocketAddrV4 { ip: addr(10, 0, 0, 1), port: 5000 };
    let y = SocketAddrV4 { ip: addr(10, 0, 0, 1), port: 5001 };
    r.joined(effective_binding(addr(239, 1, 1, 1), 1234, None, None, None));
    let mut seen = Vec::new();
    for from in [x, y, x, x, y] {
        let (events, action) = r.step(ReceiveOutcome::Received(from));
        assert_eq!(action, ReceiveAction::Deliver);
        for event in events {
            match event {
                NetEvent::SourceSeen(a) => seen.push(a),
                _ => panic!("unexpected event"),
            }
        }
    }
    assert_eq!(seen, vec![x, y]);
    let (events, action) = r.step(ReceiveOutcome::Failed);
    assert_eq!(action, ReceiveAction::LeaveFailed);
    assert_eq!(events.len(), 1);
    assert!(matches!(events[0], NetEvent::Left));
}

#[test]
fn a_failed_join_is_reported() {
    let mut r = receiver();
    let events = r.join_failed("no route".to_string());
    assert!(matches!(&events[0], NetEvent::JoinFailed { reason } if reason == "no route"));
    assert_eq!(r.step(ReceiveOutcome::Nothing).1, ReceiveAction::Done);
}

#[test]
fn joining_goes_step_by_step() {
    let mut order = vec![JoinStep::Create];
    loop {
        match order[order.len() - 1].advance(None).unwrap() {
            Some(next) => order.push(next),
            None => break,
        }
    }
    assert_eq!(
        order,
        vec![
            JoinStep::Create,
            JoinStep::SetBuffer,
            JoinStep::ReadBuffer,
            JoinStep::Reuse,
            JoinStep::Bind,
            JoinStep::Join,
            JoinStep::SetTimeout,
        ]
    );
    assert_eq!(JoinStep::ReadBuffer.advance(Some("x".to_string())).unwrap(), Some(JoinStep::Reuse));
    assert!(matches!(
        JoinStep::Join.advance(Some("x".to_string())),
        Err(NetError::JoinFailed(s)) if s == "x"
    ));
    assert!(matches!(
        JoinStep::Bind.advance(Some("y".to_string())),
        Err(NetError::Io(s)) if s == "y"
    ));
}

#[test]
fn bindings_tell_what_is_in_effect() {
    let b = effective_binding(addr(239, 1, 1, 1), 9, None, Some(addr(1, 1, 1, 1)), None);
    assert!(b.iface.is_unspecified());
    assert_eq!(b.iface_label(), "default");
    assert_eq!(b.so_rcvbuf_bytes, 0);
    assert_eq!(b.source, Some(addr(1, 1, 1, 1)));
    assert_eq!(SocketSourceConfig::default().buf_size, 4_194_304);
    assert_eq!(SocketSourceConfig::default().timeout_ms, 5_000);
    assert_ne!(SourceCapabilities::socket(), SourceCapabilities::capture());
}

#[test]
fn timeouts_and_interruptions_are_not_errors() {
    assert!(is_timeout(IoFailure::WouldBlock) && is_timeout(IoFailure::TimedOut));
    assert!(!is_timeout(IoFailure::Interrupted) && is_interrupted(IoFailure::Interrupted));
    for kind in [IoFailure::WouldBlock, IoFailure::TimedOut, IoFailure::Interrupted] {
        assert!(receive_failure(kind, "x".to_string()).is_ok());
    }
    assert!(matches!(
        receive_failure(IoFailure::Other, "x".to_string()),
        Err(NetError::Io(s)) if s == "x"
    ));
}

#[test]
fn a_stop_reaches_every_token() {
    let (token, handle) = StopToken::new();
    let other = token.clone();
    assert!(!token.is_stopped() && !other.is_stopped());
    handle.stop();
    assert!(token.is_stopped() && other.is_stopped());
    assert!(!StopToken::default().is_stopped());
}

#[test]
fn captures_cannot_be_opened() {
    let binding = SourceBinding {
        group: Ipv4Addr { a: 239, b: 1, c: 2, d: 3 },
        port: 1234,
        iface: Ipv4Addr { a: 0, b: 0, c: 0, d: 0 },
        source: None,
        so_rcvbuf_bytes: 0,
    };
    match CaptureSource::open(binding) {
        Err(NetError::MalformedUrl(text)) => assert_eq!(
            text,
            "backend de captura pcap é fase 4 e ainda não foi implementado"
        ),
        other => panic!("{other:?}"),
    }
}

#[test]
fn datagrams_can_be_copied() {
    let from = SocketAddrV4 { ip: Ipv4Addr { a: 10, b: 0, c: 0, d: 1 }, port: 5 };
    let datagram = Datagram { data: Bytes::from_static(b"abc"), from, at: 7 };
    let copy = datagram.clone();
    assert_eq!((copy.data, copy.at), (datagram.data, 7));
}
