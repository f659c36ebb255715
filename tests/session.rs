use multi_proxy::addr::{IpAddress, SocketAddress};
use multi_proxy::event::{Event, IdCounter, Protocol, Reason};
use multi_proxy::pool::IpPool;
use multi_proxy::relay::{
    association_continues, ControlState, CopyAction, Direction, ReadOutcome, RelayHalf, UdpAction,
    UdpAssociation,
};
use multi_proxy::session::{classify, Action, DialOutcome, Opening, Phase, Session};

const CLIENT: IpAddress = IpAddress::V4([192, 168, 1, 5]);

fn v6_loopback() -> [u8; 16] {
    let mut a = [0u8; 16];
    a[15] = 1;
    a
}

fn sock(ip: IpAddress, port: u16) -> SocketAddress {
    SocketAddress { ip, port }
}

#[test]
fn short_opening_is_too_short() {
    let mut s = Session::new();
    let step = s.on_first_read(CLIENT, &[5, 1]);
    assert_eq!(step.events, vec![Event::Received(CLIENT), Event::Error(Reason::TooShort)]);
    assert!(step.reply.is_empty());
    assert_eq!(step.action, Action::Close);
    assert_eq!(s.current_phase(), Phase::Closed);
}

#[test]
fn unknown_opening_byte() {
    let mut s = Session::new();
    let step = s.on_first_read(CLIENT, &[0xfe, 0xfe, 0xfe, 0xfe]);
    assert_eq!(step.events, vec![Event::Received(CLIENT), Event::Error(Reason::UnknownProtocol)]);
    assert!(step.reply.is_empty());
    assert_eq!(step.action, Action::Close);
}

#[test]
fn classify_openings() {
    assert_eq!(classify(&[1, 2], true), Opening::TooShort);
    assert_eq!(classify(&[5, 1, 0], false), Opening::Socks5);
    assert_eq!(classify(b"GET", true), Opening::Text);
    assert_eq!(classify(&[0xfe, 0, 0], false), Opening::Unknown);
}

#[test]
fn socks_greeting_without_no_auth() {
    let mut s = Session::new();
    let step = s.on_first_read(CLIENT, &[5, 1, 2]);
    assert_eq!(step.events, vec![Event::Received(CLIENT), Event::Error(Reason::InvalidAuth)]);
    assert_eq!(step.reply, vec![5, 0xff]);
    assert_eq!(step.action, Action::Close);
}

#[test]
fn http_without_target_gets_400() {
    let mut s = Session::new();
    let step = s.on_first_read(CLIENT, b"GET\r\n\r\n");
    assert_eq!(step.events, vec![Event::Received(CLIENT), Event::Error(Reason::NoHost)]);
    assert_eq!(step.reply, b"HTTP/1.1 400 Bad Request\r\n\r\n".to_vec());
}

#[test]
fn plain_http_scenario() {
    let req = b"GET / HTTP/1.1\r\nHost: example.test\r\n\r\n";
    let mut pool = IpPool::new(vec![IpAddress::V4([10, 0, 0, 1])]);
    let mut s = Session::new();
    let step = s.on_first_read(CLIENT, req);
    assert_eq!(
        step.events,
        vec![
            Event::Received(CLIENT),
            Event::Recognized(Protocol::Http),
            Event::Resolved(b"example.test:80".to_vec()),
        ]
    );
    assert_eq!(step.action, Action::Resolve(b"example.test:80".to_vec()));
    let upstream = sock(IpAddress::V4([192, 0, 2, 10]), 80);
    let step = s.on_resolved(Some(vec![upstream]), None, &mut pool);
    assert!(step.events.is_empty());
    assert_eq!(step.action, Action::Dial(upstream, IpAddress::V4([10, 0, 0, 1])));
    let local = sock(IpAddress::V4([10, 0, 0, 1]), 40000);
    let step = s.on_dial(DialOutcome::Connected(local), &mut pool);
    assert_eq!(step.events, vec![Event::Connected(local.ip, upstream), Event::Upload(req.len())]);
    assert!(req.len() >= 37);
    assert!(step.reply.is_empty());
    assert_eq!(step.action, Action::Relay(req.to_vec()));

    let mut up = RelayHalf::new(Direction::Upload);
    let (e, a) = up.on_read(ReadOutcome::Data(req.len()));
    assert_eq!(e, Some(Event::Upload(req.len())));
    assert!(req.len() >= 37);
    assert_eq!(a, CopyAction::Forward(req.len()));
    let (e, a) = up.on_read(ReadOutcome::Data(0));
    assert_eq!(e, None);
    assert_eq!(a, CopyAction::Finish);

    let step = s.on_relay_end(Ok(()));
    assert_eq!(step.events, vec![Event::Done]);
    assert_eq!(s.current_phase(), Phase::Closed);
}

#[test]
fn https_connect_scenario() {
    let req = b"CONNECT [::1]:443 HTTP/1.1\r\nHost: [::1]:443\r\n\r\n";
    let src6 = IpAddress::V6([0xfd, 0, 0, 0, 0, 0, 0, 0, 0, 0, 0, 0, 0, 0, 0, 2]);
    let mut pool = IpPool::new(vec![IpAddress::V4([10, 0, 0, 1]), src6]);
    let mut s = Session::new();
    let step = s.on_first_read(CLIENT, req);
    assert_eq!(step.events[1], Event::Recognized(Protocol::Https));
    assert_eq!(step.action, Action::Resolve(b"[::1]:443".to_vec()));
    let upstream = sock(IpAddress::V6(v6_loopback()), 443);
    let step = s.on_resolved(Some(vec![upstream]), Some(true), &mut pool);
    assert_eq!(step.action, Action::Dial(upstream, src6));
    let local = sock(src6, 50000);
    let step = s.on_dial(DialOutcome::Connected(local), &mut pool);
    assert_eq!(step.events, vec![Event::Connected(src6, upstream)]);
    assert_eq!(step.reply, b"HTTP/1.1 200 Connection Established\r\n\r\n".to_vec());
    assert_eq!(step.action, Action::Relay(Vec::new()));
}

#[test]
fn socks_tcp_scenario() {
    let mut pool = IpPool::new(Vec::new());
    let mut s = Session::new();
    let step = s.on_first_read(CLIENT, &[5, 1, 0]);
    assert_eq!(step.events, vec![Event::Received(CLIENT)]);
    assert_eq!(step.reply, vec![5, 0]);
    assert_eq!(step.action, Action::ReadRequest);
    let step = s.on_request(&[5, 1, 0, 1, 0x7f, 0, 0, 1, 0, 9], &mut pool);
    assert_eq!(
        step.events,
        vec![Event::Recognized(Protocol::Socks5Tcp), Event::Resolved(b"127.0.0.1:9".to_vec())]
    );
    assert_eq!(step.action, Action::Resolve(b"127.0.0.1:9".to_vec()));
    let upstream = sock(IpAddress::V4([127, 0, 0, 1]), 9);
    let step = s.on_resolved(Some(vec![upstream]), None, &mut pool);
    assert_eq!(step.action, Action::Dial(upstream, IpAddress::V4([0; 4])));
    let local = sock(IpAddress::V4([127, 0, 0, 1]), 0x9c40);
    let step = s.on_dial(DialOutcome::Connected(local), &mut pool);
    assert_eq!(&step.reply[..4], &[5, 0, 0, 1]);
    assert_eq!(step.reply, vec![5, 0, 0, 1, 127, 0, 0, 1, 0x9c, 0x40]);
    assert_eq!(step.events, vec![Event::Connected(local.ip, upstream)]);
}

#[test]
fn retries_then_connects() {
    let mut pool = IpPool::new(vec![IpAddress::V4([10, 0, 0, 1])]);
    let mut s = Session::new();
    s.on_first_read(CLIENT, b"GET / HTTP/1.1\r\nHost: x.test\r\n\r\n");
    let c: Vec<SocketAddress> = (1..=3).map(|i| sock(IpAddress::V4([192, 0, 2, i]), 80)).collect();
    let step = s.on_resolved(Some(c.clone()), None, &mut pool);
    assert_eq!(step.action, Action::Dial(c[0], IpAddress::V4([10, 0, 0, 1])));
    let step = s.on_dial(DialOutcome::Failed, &mut pool);
    assert_eq!(step.events, vec![Event::Retry]);
    assert_eq!(step.action, Action::Dial(c[1], IpAddress::V4([10, 0, 0, 1])));
    let step = s.on_dial(DialOutcome::TimedOut, &mut pool);
    assert_eq!(step.events, vec![Event::Retry]);
    assert_eq!(step.action, Action::Dial(c[2], IpAddress::V4([10, 0, 0, 1])));
    let local = sock(IpAddress::V4([10, 0, 0, 1]), 1234);
    let step = s.on_dial(DialOutcome::Connected(local), &mut pool);
    assert_eq!(step.events, vec![Event::Connected(local.ip, c[2]), Event::Upload(32)]);
}

#[test]
fn all_unreachable_http_gets_500() {
    let mut pool = IpPool::new(Vec::new());
    let mut s = Session::new();
    s.on_first_read(CLIENT, b"GET / HTTP/1.1\r\nHost: x.test\r\n\r\n");
    let a = sock(IpAddress::V4([192, 0, 2, 1]), 80);
    let b = sock(IpAddress::V6(v6_loopback()), 80);
    s.on_resolved(Some(vec![a, b]), None, &mut pool);
    let first = s.on_dial(DialOutcome::Failed, &mut pool);
    assert_eq!(first.events, vec![Event::Retry]);
    assert_eq!(first.action, Action::Dial(b, IpAddress::V6([0; 16])));
    let last = s.on_dial(DialOutcome::Failed, &mut pool);
    assert_eq!(last.events, vec![Event::Retry, Event::Error(Reason::Unreachable)]);
    assert!(last.reply.starts_with(b"HTTP/1.1 500"));
    assert_eq!(last.action, Action::Close);
}

#[test]
fn all_unreachable_socks_gets_rep_04() {
    let mut pool = IpPool::new(Vec::new());
    let mut s = Session::new();
    s.on_first_read(CLIENT, &[5, 1, 0]);
    let req = [5, 1, 0, 3, 6, b'x', b'.', b't', b'e', b's', b't', 0, 80];
    s.on_request(&req, &mut pool);
    let a = sock(IpAddress::V4([192, 0, 2, 1]), 80);
    let b = sock(IpAddress::V4([192, 0, 2, 2]), 80);
    s.on_resolved(Some(vec![a, b]), None, &mut pool);
    s.on_dial(DialOutcome::Failed, &mut pool);
    let last = s.on_dial(DialOutcome::Failed, &mut pool);
    assert_eq!(last.events, vec![Event::Retry, Event::Error(Reason::Unreachable)]);
    assert_eq!(last.reply[1], 4);
    assert_eq!(last.reply[0], 5);
    assert_eq!(&last.reply[2..], &req[2..]);
}

#[test]
fn timeout_on_last_candidate_gets_504() {
    let mut pool = IpPool::new(Vec::new());
    let mut s = Session::new();
    s.on_first_read(CLIENT, b"GET / HTTP/1.1\r\nHost: x.test\r\n\r\n");
    s.on_resolved(Some(vec![sock(IpAddress::V4([192, 0, 2, 1]), 80)]), None, &mut pool);
    let last = s.on_dial(DialOutcome::TimedOut, &mut pool);
    assert_eq!(last.events, vec![Event::Retry, Event::Error(Reason::Timeout)]);
    assert_eq!(last.reply, b"HTTP/1.1 504 Gateway Time-out\r\n\r\n".to_vec());
}

#[test]
fn dns_failure_gets_404() {
    let mut pool = IpPool::new(Vec::new());
    let mut s = Session::new();
    s.on_first_read(CLIENT, b"GET / HTTP/1.1\r\nHost: x.test\r\n\r\n");
    let step = s.on_resolved(None, None, &mut pool);
    assert_eq!(step.events, vec![Event::Error(Reason::DnsFailed)]);
    assert_eq!(step.reply, b"HTTP/1.1 404 Not Found\r\n\r\n".to_vec());
    let mut s = Session::new();
    s.on_first_read(CLIENT, b"GET / HTTP/1.1\r\nHost: x.test\r\n\r\n");
    let step = s.on_resolved(Some(Vec::new()), None, &mut pool);
    assert_eq!(step.events, vec![Event::Error(Reason::DnsFailed)]);
}

#[test]
fn unsupported_and_malformed_requests() {
    let mut pool = IpPool::new(Vec::new());
    let mut s = Session::new();
    s.on_first_read(CLIENT, &[5, 1, 0]);
    let step = s.on_request(&[5, 2, 0, 1, 127, 0, 0, 1, 0, 9], &mut pool);
    assert_eq!(step.events, vec![Event::Error(Reason::UnsupportedCommand(2))]);
    let mut s = Session::new();
    s.on_first_read(CLIENT, &[5, 1, 0]);
    let step = s.on_request(&[5, 1, 0], &mut pool);
    assert_eq!(step.events, vec![Event::Error(Reason::BadRequest)]);
    assert_eq!(step.action, Action::Close);
}

#[test]
fn socks_udp_scenario() {
    let src = IpAddress::V4([10, 0, 0, 7]);
    let mut pool = IpPool::new(vec![src]);
    let mut s = Session::new();
    s.on_first_read(CLIENT, &[5, 1, 0]);
    let step = s.on_request(&[5, 3, 0, 1, 0, 0, 0, 0, 0, 0], &mut pool);
    assert_eq!(step.events, vec![Event::Recognized(Protocol::Socks5Udp)]);
    assert_eq!(step.action, Action::BindUdp(src));
    let bound = sock(src, 0x1234);
    let step = s.on_udp_bound(Ok(bound));
    assert_eq!(step.events, vec![Event::Connected(src, bound)]);
    assert_eq!(step.reply, vec![5, 0, 0, 1, 10, 0, 0, 7, 0x12, 0x34]);
    assert_eq!(step.action, Action::RelayUdp);

    let mut assoc = UdpAssociation::new();
    let client = sock(CLIENT, 6000);
    let mut pkt = vec![0, 0, 0, 3, 12];
    pkt.extend_from_slice(b"example.test");
    pkt.extend_from_slice(&[0, 53]);
    pkt.extend_from_slice(b"P");
    match assoc.on_datagram(client, &pkt) {
        UdpAction::Forward(target, off) => {
            assert_eq!(target, b"example.test:53".to_vec());
            assert_eq!(&pkt[off..], b"P");
        }
        other => panic!("unexpected {:?}", other),
    }
    let server = sock(IpAddress::V4([192, 0, 2, 53]), 53);
    match assoc.on_datagram(server, b"answer") {
        UdpAction::Reply(to, bytes) => {
            assert_eq!(to, client);
            assert_eq!(&bytes[..10], &[0, 0, 0, 1, 192, 0, 2, 53, 0, 53]);
            assert_eq!(&bytes[10..], b"answer");
        }
        other => panic!("unexpected {:?}", other),
    }
    assert_eq!(assoc.on_datagram(client, &[0, 0, 1, 1, 1, 1, 1, 1, 0, 1, 9]), UdpAction::Drop);
    let step = s.on_relay_end(Ok(()));
    assert_eq!(step.events, vec![Event::Done]);
}

#[test]
fn relay_counts_every_read() {
    let mut down = RelayHalf::new(Direction::Download);
    let mut total = 0;
    for n in [5usize, 40960, 1] {
        let (e, a) = down.on_read(ReadOutcome::Data(n));
        if let Some(Event::Download(k)) = e {
            total += k;
        } else {
            panic!("expected a download event");
        }
        assert_eq!(a, CopyAction::Forward(n));
    }
    assert_eq!(total, 40966);
    assert_eq!(down.on_read(ReadOutcome::Interrupted), (None, CopyAction::ReadAgain));
    assert_eq!(down.on_read(ReadOutcome::WouldBlock), (None, CopyAction::Finish));
    let mut other = RelayHalf::new(Direction::Upload);
    assert_eq!(other.on_read(ReadOutcome::TimedOut), (None, CopyAction::Finish));
    let mut failing = RelayHalf::new(Direction::Upload);
    assert_eq!(
        failing.on_read(ReadOutcome::Failed("reset".to_string())),
        (None, CopyAction::Fail("reset".to_string()))
    );
}

#[test]
fn relay_error_ends_with_error() {
    let mut pool = IpPool::new(Vec::new());
    let mut s = Session::new();
    s.on_first_read(CLIENT, b"CONNECT a.test:443 HTTP/1.1\r\n\r\n");
    let up = sock(IpAddress::V4([192, 0, 2, 1]), 443);
    s.on_resolved(Some(vec![up]), None, &mut pool);
    s.on_dial(DialOutcome::Connected(sock(IpAddress::V4([192, 0, 2, 9]), 1)), &mut pool);
    let step = s.on_relay_end(Err("reset".to_string()));
    assert_eq!(step.events, vec![Event::Error(Reason::Io("reset".to_string()))]);
}

#[test]
fn io_error_before_relay() {
    let mut s = Session::new();
    s.on_first_read(CLIENT, &[5, 1, 0]);
    let step = s.on_io_error("broken pipe".to_string());
    assert_eq!(step.events, vec![Event::Error(Reason::Io("broken pipe".to_string()))]);
    assert_eq!(s.current_phase(), Phase::Closed);
}

#[test]
fn protocol_labels() {
    assert_eq!(Protocol::Http.display(), "    http://");
    assert_eq!(Protocol::Https.display(), "   https://");
    assert_eq!(Protocol::Socks5Tcp.display(), "T socks5://");
    assert_eq!(Protocol::Socks5Udp.display(), "U socks5://");
}

#[test]
fn ids_increase_from_one() {
    let mut ids = IdCounter::new();
    assert_eq!(ids.next_id(), Some(1));
    assert_eq!(ids.next_id(), Some(2));
    assert_eq!(ids.next_id(), Some(3));
}

#[test]
fn bound_address_of_other_family_counts_as_failure() {
    let mut pool = IpPool::new(Vec::new());
    let mut s = Session::new();
    s.on_first_read(CLIENT, b"GET / HTTP/1.1\r\nHost: x.test\r\n\r\n");
    let a = sock(IpAddress::V4([192, 0, 2, 1]), 80);
    let b = sock(IpAddress::V4([192, 0, 2, 2]), 80);
    s.on_resolved(Some(vec![a, b]), None, &mut pool);
    let wrong = sock(IpAddress::V6(v6_loopback()), 5000);
    let step = s.on_dial(DialOutcome::Connected(wrong), &mut pool);
    assert_eq!(step.events, vec![Event::Retry]);
    assert_eq!(step.action, Action::Dial(b, IpAddress::V4([0; 4])));
    let right = sock(IpAddress::V4([10, 1, 1, 1]), 5000);
    let step = s.on_dial(DialOutcome::Connected(right), &mut pool);
    assert_eq!(step.events, vec![Event::Connected(right.ip, b), Event::Upload(32)]);
}

#[test]
fn failed_opening_read_is_reported() {
    let mut s = Session::new();
    let step = s.on_read_failed(CLIENT, "reset".to_string());
    assert_eq!(step.events, vec![Event::Received(CLIENT), Event::Error(Reason::Io("reset".to_string()))]);
    assert_eq!(step.action, Action::Close);
    assert_eq!(s.current_phase(), Phase::Closed);
}

#[test]
fn association_runs_while_control_is_idle() {
    assert!(association_continues(ControlState::Idle));
    assert!(!association_continues(ControlState::Active));
}

#[test]
fn pool_sources_rotate_across_dials() {
    let p1 = IpAddress::V4([10, 0, 0, 1]);
    let p2 = IpAddress::V4([10, 0, 0, 2]);
    let mut pool = IpPool::new(vec![p1, p2]);
    let mut s = Session::new();
    s.on_first_read(CLIENT, b"CONNECT x.test:443 HTTP/1.1\r\n\r\n");
    let c: Vec<SocketAddress> = (1..=3).map(|i| sock(IpAddress::V4([192, 0, 2, i]), 443)).collect();
    assert_eq!(s.on_resolved(Some(c.clone()), None, &mut pool).action, Action::Dial(c[0], p1));
    assert_eq!(s.on_dial(DialOutcome::Failed, &mut pool).action, Action::Dial(c[1], p2));
    assert_eq!(s.on_dial(DialOutcome::Failed, &mut pool).action, Action::Dial(c[2], p1));
}
