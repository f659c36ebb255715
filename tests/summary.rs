use multi_proxy::addr::{IpAddress, SocketAddress};
use multi_proxy::event::{Event, Protocol, Reason};
use multi_proxy::summary::{State, Summary};

const PEER: IpAddress = IpAddress::V4([192, 168, 1, 5]);

#[test]
fn received_lists_in_id_order() {
    let mut s = Summary::new();
    s.update(3, Event::Received(PEER), 10);
    s.update(1, Event::Received(PEER), 11);
    s.update(2, Event::Received(PEER), 12);
    let ids: Vec<usize> = s.list().iter().map(|(id, _)| *id).collect();
    assert_eq!(ids, vec![1, 2, 3]);
    assert_eq!(s.list()[0].1.time_start, 11);
    assert_eq!(s.list()[0].1.state, State::Waiting);
}

#[test]
fn events_update_their_row() {
    let mut s = Summary::new();
    s.update(1, Event::Received(PEER), 0);
    s.update(1, Event::Recognized(Protocol::Https), 1);
    s.update(1, Event::Resolved(b"a.test:443".to_vec()), 2);
    s.update(1, Event::Retry, 3);
    let up = SocketAddress { ip: IpAddress::V4([192, 0, 2, 1]), port: 443 };
    s.update(1, Event::Connected(IpAddress::V4([10, 0, 0, 1]), up), 4);
    s.update(1, Event::Upload(10), 5);
    s.update(1, Event::Upload(5), 6);
    s.update(1, Event::Download(7), 7);
    s.update(9, Event::Upload(1000), 8);
    let c = &s.list()[0].1;
    assert_eq!(c.protocol, Some(Protocol::Https));
    assert_eq!(c.uri, Some(b"a.test:443".to_vec()));
    assert_eq!(c.retries, 1);
    assert_eq!(c.bind, Some(IpAddress::V4([10, 0, 0, 1])));
    assert_eq!(c.remote, Some(up));
    assert_eq!(c.state, State::Connected);
    assert_eq!(c.upload, 15);
    assert_eq!(c.download, 7);
    assert_eq!(s.list().len(), 1);
}

#[test]
fn finished_rows_leave_after_two_seconds() {
    let mut s = Summary::new();
    s.update(1, Event::Received(PEER), 0);
    s.update(2, Event::Received(PEER), 0);
    s.update(3, Event::Received(PEER), 0);
    s.update(1, Event::Done, 1000);
    s.update(2, Event::Error(Reason::Unreachable), 2500);
    s.update(0, Event::Tick, 2999);
    assert_eq!(s.list().len(), 3);
    s.update(0, Event::Tick, 3000);
    let ids: Vec<usize> = s.list().iter().map(|(id, _)| *id).collect();
    assert_eq!(ids, vec![2, 3]);
    assert_eq!(s.list()[0].1.state, State::Error(2500));
    assert_eq!(s.list()[0].1.error, Some(Reason::Unreachable));
    s.update(0, Event::Tick, 4500);
    let ids: Vec<usize> = s.list().iter().map(|(id, _)| *id).collect();
    assert_eq!(ids, vec![3]);
}
