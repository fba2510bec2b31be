use ironplayer::net::error::NetError;
use ironplayer::net::url::StreamUrl;

#[test]
fn spec_net_001_udp_multicast_valid() {
    let result = StreamUrl::parse("udp://@239.1.1.1:1234").unwrap();
    assert_eq!(
        result,
        StreamUrl::UdpMulticast {
            group: "239.1.1.1".parse().unwrap(),
            port: 1234,
            iface: None,
        }
    );
}

#[test]
fn spec_net_001_rtp_multicast_valid() {
    let result = StreamUrl::parse("rtp://@239.0.0.5:5004").unwrap();
    assert_eq!(
        result,
        StreamUrl::RtpMulticast {
            group: "239.0.0.5".parse().unwrap(),
            port: 5004,
            iface: None,
        }
    );
}

#[test]
fn spec_net_001_not_multicast() {
    let result = StreamUrl::parse("udp://10.0.0.1:1234");
    assert!(matches!(result, Err(NetError::NotMulticast(_))));
}

#[test]
fn spec_net_001_invalid_port() {
    let result = StreamUrl::parse("udp://@239.1.1.1:0");
    assert!(matches!(result, Err(NetError::InvalidPort)));
}

#[test]
fn spec_net_001_unknown_scheme() {
    let result = StreamUrl::parse("http://example.com");
    assert!(matches!(result, Err(NetError::UnknownScheme(_))));
}

#[test]
fn spec_net_001_iface_param() {
    let result = StreamUrl::parse("udp://@239.1.1.1:1234?iface=192.168.1.10").unwrap();
    assert_eq!(
        result,
        StreamUrl::UdpMulticast {
            group: "239.1.1.1".parse().unwrap(),
            port: 1234,
            iface: Some("192.168.1.10".parse().unwrap()),
        }
    );
}
