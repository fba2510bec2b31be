use ironplayer::net::ipv4::Ipv4Addr;
use ironplayer::net::source::{SourceBinding, SourceCapabilities};

#[test]
fn spec_probe_ip_002_socket_backend_does_not_observe_ip_header() {
    assert_eq!(
        SourceCapabilities::socket(),
        SourceCapabilities {
            ip_header: false,
            link_mtu: false
        }
    );
    assert_eq!(
        SourceCapabilities::capture(),
        SourceCapabilities {
            ip_header: true,
            link_mtu: true
        }
    );
    assert_ne!(SourceCapabilities::socket(), SourceCapabilities::capture());
    assert_eq!(SourceCapabilities::socket().label(), "socket");
    assert_eq!(SourceCapabilities::capture().label(), "capture");
}

#[test]
fn spec_probe_ip_051_binding_reports_effective_interface() {
    let b = SourceBinding {
        group: "239.15.0.183".parse().expect("grupo"),
        port: 50_000,
        iface: Ipv4Addr::unspecified(),
        source: None,
        so_rcvbuf_bytes: 4_194_304,
    };
    assert_eq!(b.iface_label(), "default");

    let fixed = SourceBinding {
        iface: "10.0.0.7".parse().expect("iface"),
        ..b
    };
    assert_eq!(fixed.iface_label(), "10.0.0.7");
}
