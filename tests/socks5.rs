use multi_proxy::addr::{IpAddress, SocketAddress};
use multi_proxy::socks5::{
    build_socks_response, build_socks_udp, decode_socks_request, decode_socks_udp,
    destination_text, encode_socks_request, failure_reply, greeting_reply, socks_prase_host,
    socks_prase_request, SocksRequest, TargetHost,
};

fn v6_loopback() -> [u8; 16] {
    let mut a = [0u8; 16];
    a[15] = 1;
    a
}

fn round_trip(req: SocksRequest) {
    let bytes = encode_socks_request(&req);
    let (back, n) = decode_socks_request(&bytes).expect("request decodes");
    assert_eq!(back, req);
    assert_eq!(n, bytes.len());
}

#[test]
fn request_round_trip_ipv4_all_port_edges() {
    for port in [0u16, 1, 9, 80, 255, 256, 443, 65534, 65535] {
        round_trip(SocksRequest { cmd: 1, host: TargetHost::Ip(IpAddress::V4([127, 0, 0, 1])), port });
    }
}

#[test]
fn request_round_trip_ipv6() {
    for port in [0u16, 443, 65535] {
        round_trip(SocksRequest { cmd: 3, host: TargetHost::Ip(IpAddress::V6(v6_loopback())), port });
    }
}

#[test]
fn request_round_trip_domain() {
    for port in [0u16, 53, 65535] {
        round_trip(SocksRequest { cmd: 1, host: TargetHost::Domain(b"example.test".to_vec()), port });
    }
    round_trip(SocksRequest { cmd: 1, host: TargetHost::Domain(Vec::new()), port: 7 });
    round_trip(SocksRequest { cmd: 1, host: TargetHost::Domain(vec![b'a'; 255]), port: 7 });
}

#[test]
fn request_encoding_is_the_wire_format() {
    let req = SocksRequest { cmd: 1, host: TargetHost::Ip(IpAddress::V4([127, 0, 0, 1])), port: 9 };
    assert_eq!(encode_socks_request(&req), vec![5, 1, 0, 1, 127, 0, 0, 1, 0, 9]);
    let req = SocksRequest { cmd: 1, host: TargetHost::Domain(b"ab".to_vec()), port: 0x1234 };
    assert_eq!(encode_socks_request(&req), vec![5, 1, 0, 3, 2, b'a', b'b', 0x12, 0x34]);
}

#[test]
fn prase_request_literal_ipv4() {
    let (cmd, target, n) = socks_prase_request(&[5, 1, 0, 1, 0x7f, 0, 0, 1, 0, 9]).unwrap();
    assert_eq!(cmd, 1);
    assert_eq!(target, b"127.0.0.1:9".to_vec());
    assert_eq!(n, 7);
}

#[test]
fn prase_request_rejects_truncated_and_unknown_types() {
    assert!(socks_prase_request(&[5, 1]).is_none());
    assert!(socks_prase_request(&[5, 1, 0, 1, 127, 0, 0]).is_none());
    assert!(socks_prase_request(&[5, 1, 0, 2, 127, 0, 0, 1, 0, 9]).is_none());
    assert!(socks_prase_request(&[5, 1, 0, 3, 5, b'a', b'b']).is_none());
}

#[test]
fn prase_host_texts() {
    let mut v6 = vec![4u8];
    v6.extend_from_slice(&v6_loopback());
    v6.extend_from_slice(&[1, 0xbb]);
    let (t, n) = socks_prase_host(&v6).unwrap();
    assert_eq!(String::from_utf8(t).unwrap(), "[0:0:0:0:0:0:0:1]:443");
    assert_eq!(n, 19);
    let (t, n) = socks_prase_host(&[3, 4, b'h', b'o', b's', b't', 0, 80, 99]).unwrap();
    assert_eq!(t, b"host:80".to_vec());
    assert_eq!(n, 8);
    let (t, _) = socks_prase_host(&[1, 10, 200, 0, 255, 0xff, 0xff]).unwrap();
    assert_eq!(t, b"10.200.0.255:65535".to_vec());
}

#[test]
fn destination_text_groups_in_hex() {
    let a = [0x20, 0x01, 0x0d, 0xb8, 0, 0, 0, 0, 0, 0, 0, 0, 0xab, 0xcd, 0, 0x10];
    let t = destination_text(&TargetHost::Ip(IpAddress::V6(a)), 8080);
    assert_eq!(String::from_utf8(t).unwrap(), "[2001:db8:0:0:0:0:abcd:10]:8080");
}

#[test]
fn response_sizes_and_bytes() {
    let r = build_socks_response(0, SocketAddress { ip: IpAddress::V4([10, 0, 0, 2]), port: 0x1f90 });
    assert_eq!(r, vec![5, 0, 0, 1, 10, 0, 0, 2, 0x1f, 0x90]);
    let r = build_socks_response(0, SocketAddress { ip: IpAddress::V6(v6_loopback()), port: 1 });
    assert_eq!(r.len(), 22);
    assert_eq!(&r[..4], &[5, 0, 0, 4]);
    assert_eq!(&r[20..], &[0, 1]);
}

#[test]
fn greeting_without_no_auth_is_refused() {
    assert_eq!(greeting_reply(&[5, 1, 2]), vec![5, 0xff]);
    assert_eq!(greeting_reply(&[5, 2, 1, 2]), vec![5, 0xff]);
    assert_eq!(greeting_reply(&[5, 1, 2, 0]), vec![5, 0xff]);
    assert_eq!(greeting_reply(&[5, 0, 0]), vec![5, 0xff]);
    assert_eq!(greeting_reply(&[5]), vec![5, 0xff]);
}

#[test]
fn greeting_with_no_auth_is_accepted() {
    assert_eq!(greeting_reply(&[5, 1, 0]), vec![5, 0]);
    assert_eq!(greeting_reply(&[5, 2, 2, 0]), vec![5, 0]);
}

#[test]
fn failure_reply_sets_host_unreachable() {
    let req = [5, 1, 0, 1, 127, 0, 0, 1, 0, 9];
    assert_eq!(failure_reply(&req), vec![5, 4, 0, 1, 127, 0, 0, 1, 0, 9]);
}

#[test]
fn udp_header_round_trip() {
    let from = SocketAddress { ip: IpAddress::V4([192, 0, 2, 7]), port: 5353 };
    let pkt = build_socks_udp(from, b"payload");
    assert_eq!(&pkt[..10], &[0, 0, 0, 1, 192, 0, 2, 7, 0x14, 0xe9]);
    let (h, p, off) = decode_socks_udp(&pkt).unwrap();
    assert_eq!(h, TargetHost::Ip(IpAddress::V4([192, 0, 2, 7])));
    assert_eq!(p, 5353);
    assert_eq!(&pkt[off..], b"payload");
    let from6 = SocketAddress { ip: IpAddress::V6(v6_loopback()), port: 1 };
    let pkt = build_socks_udp(from6, b"");
    assert_eq!(pkt.len(), 22);
    let (h, p, off) = decode_socks_udp(&pkt).unwrap();
    assert_eq!(h, TargetHost::Ip(IpAddress::V6(v6_loopback())));
    assert_eq!(p, 1);
    assert_eq!(off, 22);
}

#[test]
fn udp_domain_datagram_payload_follows_header() {
    let mut pkt = vec![0, 0, 0, 3, 12];
    pkt.extend_from_slice(b"example.test");
    pkt.extend_from_slice(&[0, 53]);
    pkt.extend_from_slice(b"P");
    let (h, p, off) = decode_socks_udp(&pkt).unwrap();
    assert_eq!(h, TargetHost::Domain(b"example.test".to_vec()));
    assert_eq!(p, 53);
    assert_eq!(&pkt[off..], b"P");
}

#[test]
fn udp_short_or_fragmented_is_dropped() {
    assert!(decode_socks_udp(&[0, 0, 0, 1, 1, 2, 3, 4, 0]).is_none());
    assert!(decode_socks_udp(&[0, 0, 1, 1, 1, 2, 3, 4, 0, 80, 9]).is_none());
}

#[test]
fn domain_must_be_utf8() {
    assert!(socks_prase_host(&[3, 1, 0xff, 0, 0x50]).is_none());
    assert!(decode_socks_udp(&[0, 0, 0, 3, 2, 0xc3, 0x28, 0, 53, 1, 2]).is_none());
    let (t, _) = socks_prase_host(&[3, 2, 0xc3, 0xa9, 0, 80]).unwrap();
    assert_eq!(String::from_utf8(t).unwrap(), "\u{e9}:80");
}
