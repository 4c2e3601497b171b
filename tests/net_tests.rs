use ssdp::config::Config;
use ssdp::notify::NotifyMessage;
use ssdp::net::{filter_local_addrs, IpAddress, IpVersionMode, SocketAddress, V4Addr, V6Addr};
use ssdp::search::{Destination, SearchRequest, SearchResponse};

fn v4(a: u8, b: u8, c: u8, d: u8) -> IpAddress {
    IpAddress::V4(V4Addr { octets: [a, b, c, d] })
}

fn v6(s: [u16; 8]) -> IpAddress {
    IpAddress::V6(V6Addr { segments: s })
}

#[test]
fn interface_filtering_by_mode() {
    let loopback = v4(127, 0, 0, 1);
    let private = v4(192, 168, 1, 10);
    let link_local6 = v6([0xfe80, 0, 0, 0, 0, 0, 0, 1]);
    let global = v4(8, 8, 8, 8);
    let list = vec![loopback, private, link_local6, global];
    assert_eq!(filter_local_addrs(&list, IpVersionMode::Any), vec![private, global]);
    assert_eq!(filter_local_addrs(&list, IpVersionMode::V4Only), vec![private, global]);
    assert_eq!(filter_local_addrs(&list, IpVersionMode::V6Only), Vec::<IpAddress>::new());
}

#[test]
fn ipv6_scopes() {
    let ula = v6([0xfd00, 1, 0, 0, 0, 0, 0, 1]);
    let loop6 = v6([0, 0, 0, 0, 0, 0, 0, 1]);
    let global6 = v6([0x2a00, 1, 0, 0, 0, 0, 0, 1]);
    let doc6 = v6([0x2001, 0xdb8, 0, 0, 0, 0, 0, 1]);
    let site6 = v6([0xfec0, 0, 0, 0, 0, 0, 0, 1]);
    let list = vec![ula, loop6, global6, doc6, site6, v4(10, 0, 0, 1)];
    assert_eq!(filter_local_addrs(&list, IpVersionMode::V6Only), vec![ula]);
    assert_eq!(filter_local_addrs(&list, IpVersionMode::V4Only), vec![v4(10, 0, 0, 1)]);
    assert!(V6Addr { segments: [0x2a00, 1, 0, 0, 0, 0, 0, 1] }.is_global_addr());
    assert!(!V6Addr { segments: [0xfe80, 0, 0, 0, 0, 0, 0, 1] }.is_global_addr());
    assert!(!V6Addr { segments: [0xfd00, 0, 0, 0, 0, 0, 0, 1] }.is_global_addr());
    assert!(!V6Addr { segments: [0xff02, 0, 0, 0, 0, 0, 0, 0xc] }.is_global_addr());
    assert!(!V6Addr { segments: [0; 8] }.is_global_addr());
    assert!(V6Addr { segments: [0; 8] }.is_unspecified());
}

#[test]
fn ipv4_global_classes() {
    let g = |a, b, c, d| V4Addr { octets: [a, b, c, d] }.is_global_addr();
    assert!(g(8, 8, 8, 8));
    assert!(g(192, 0, 0, 9));
    assert!(g(192, 0, 0, 10));
    assert!(!g(10, 1, 2, 3));
    assert!(!g(172, 16, 0, 1));
    assert!(g(172, 32, 0, 1));
    assert!(!g(192, 168, 0, 1));
    assert!(!g(127, 0, 0, 1));
    assert!(!g(169, 254, 1, 1));
    assert!(!g(255, 255, 255, 255));
    assert!(!g(198, 51, 100, 7));
    assert!(!g(0, 1, 2, 3));
}

#[test]
fn config_defaults_and_setters() {
    let c = Config::new();
    assert_eq!(c.ipv4_addr, "239.255.255.250");
    assert_eq!(c.ipv6_addr, "FF02::C");
    assert_eq!(c.port, 1900);
    assert_eq!(c.ttl, 2);
    assert_eq!(c.mode, IpVersionMode::Any);
    let d = Config::default()
        .set_ipv4_addr("239.1.1.1".to_string())
        .set_ipv6_addr("FF05::C".to_string())
        .set_port(1901)
        .set_ttl(4)
        .set_mode(IpVersionMode::V4Only);
    assert_eq!(d.ipv4_addr, "239.1.1.1");
    assert_eq!(d.ipv6_addr, "FF05::C");
    assert_eq!(d.port, 1901);
    assert_eq!(d.ttl, 4);
    assert_eq!(d.mode, IpVersionMode::V4Only);
}

#[test]
fn unicast_search_plan() {
    let mut req = SearchRequest::new();
    req.set_mx(3);
    let local = SocketAddress { ip: v4(192, 168, 1, 2), port: 0 };
    let dst = SocketAddress { ip: v4(192, 168, 1, 9), port: 1900 };
    let plan = req.unicast(local, dst);
    assert_eq!(plan.sends.len(), 1);
    assert_eq!(plan.sends[0].local, local);
    assert_eq!(plan.sends[0].dest, Destination::Host(dst));
    assert_eq!(plan.sends[0].payload, b"M-SEARCH * HTTP/1.1\r\nMX: 3\r\n\r\n".to_vec());
    assert_eq!(plan.timeout_secs, 3);
}

#[test]
fn multicast_search_plan() {
    let req = SearchRequest::new();
    let cfg = Config::new().set_mode(IpVersionMode::V4Only).set_port(1902);
    let addrs = vec![v4(127, 0, 0, 1), v4(10, 0, 0, 5), v6([0xfd00, 0, 0, 0, 0, 0, 0, 2])];
    let plan = req.multicast(&cfg, &addrs);
    assert_eq!(plan.timeout_secs, 2);
    assert_eq!(plan.sends.len(), 1);
    assert_eq!(plan.sends[0].local, SocketAddress { ip: v4(10, 0, 0, 5), port: 0 });
    assert_eq!(plan.sends[0].dest, Destination::Group(1902));
    assert_eq!(plan.sends[0].payload, b"M-SEARCH * HTTP/1.1\r\n\r\n".to_vec());
}

#[test]
fn response_goes_back_to_requester() {
    let r = SearchResponse::new();
    let dst = SocketAddress { ip: v4(192, 168, 1, 9), port: 50000 };
    let reply = r.unicast(dst);
    assert_eq!(reply.dest, dst);
    assert_eq!(reply.payload, b"HTTP/1.1 200 OK\r\n\r\n".to_vec());
}

#[test]
fn notify_multicast_from_every_eligible_address() {
    let mut n = NotifyMessage::new();
    n.set_raw(b"NTS", vec![b"ssdp:alive".to_vec()]);
    let cfg = Config::new();
    let addrs = vec![v4(10, 0, 0, 5), v4(127, 0, 0, 1), v6([0xfd00, 0, 0, 0, 0, 0, 0, 2])];
    let sends = n.multicast(&cfg, &addrs);
    assert_eq!(sends.len(), 2);
    assert_eq!(sends[0].local, SocketAddress { ip: v4(10, 0, 0, 5), port: 0 });
    assert_eq!(sends[1].local, SocketAddress { ip: v6([0xfd00, 0, 0, 0, 0, 0, 0, 2]), port: 0 });
    for s in sends.iter() {
        assert_eq!(s.dest, Destination::Group(1900));
        assert_eq!(s.payload, b"NOTIFY * HTTP/1.1\r\nNTS: ssdp:alive\r\n\r\n".to_vec());
    }
    let back = NotifyMessage::raw_ssdp(&sends[0].payload).unwrap();
    assert_eq!(back.get_raw(b"nts").unwrap(), vec![b"ssdp:alive".to_vec()]);
    assert!(NotifyMessage::raw_ssdp(b"HTTP/1.1 200 OK\r\n\r\n").is_err());
}
