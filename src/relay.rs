use vstd::prelude::*;
use crate::addr::SocketAddress;
use crate::event::Event;
use crate::socks5::{decode_socks_udp, decode_udp, destination_text, encode_udp, ip_host, target_text, build_socks_udp};

verus! {

/// Direction of one half of a relay.
#[derive(Clone, Copy, Debug, PartialEq, Eq, Structural)]
pub enum Direction {
    /// Client to upstream.
    Upload,
    /// Upstream to client.
    Download,
}

/// Outcome of one read on the source side of a relay half.
#[derive(Clone, Debug, PartialEq, Eq)]
pub enum ReadOutcome {
    /// This many bytes were read; zero means end of stream.
    Data(usize),
    Interrupted,
    TimedOut,
    WouldBlock,
    /// Any other error, with its message.
    Failed(String),
}

/// What a relay half does after a read.
#[derive(Clone, Debug, PartialEq, Eq)]
pub enum CopyAction {
    /// Write the bytes just read to the other side, then read again.
    Forward(usize),
    /// Read again.
    ReadAgain,
    /// Stop cleanly and shut the other side down.
    Finish,
    /// Stop with this error.
    Fail(String),
}

/// Bytes counted by the progress events of one direction.
pub open spec fn reported_bytes(s: Seq<Event>, d: Direction) -> nat
    decreases s.len(),
{
    if s.len() == 0 {
        0
    } else {
        reported_bytes(s.drop_last(), d) + match (s.last(), d) {
            (Event::Upload(n), Direction::Upload) => n as nat,
            (Event::Download(n), Direction::Download) => n as nat,
            _ => 0nat,
        }
    }
}

/// The decisions of one direction of a TCP relay.
pub struct RelayHalf {
    direction: Direction,
    finished: bool,
    bytes_read: Ghost<nat>,
    reported: Ghost<Seq<Event>>,
}

impl RelayHalf {
    pub closed spec fn direction(&self) -> Direction {
        self.direction
    }

    pub closed spec fn is_finished(&self) -> bool {
        self.finished
    }

    /// Bytes read from the source side so far.
    pub closed spec fn bytes_read(&self) -> nat {
        self.bytes_read@
    }

    /// Progress events reported so far.
    pub closed spec fn reported(&self) -> Seq<Event> {
        self.reported@
    }

    pub closed spec fn wf(&self) -> bool {
        reported_bytes(self.reported@, self.direction) == self.bytes_read@
    }

    pub fn new(direction: Direction) -> (r: RelayHalf)
        ensures
            r.wf(),
            r.direction() == direction,
            !r.is_finished(),
            r.bytes_read() == 0,
            r.reported() == Seq::<Event>::empty(),
    {
        RelayHalf { direction, finished: false, bytes_read: Ghost(0), reported: Ghost(Seq::empty()) }
    }

    /// Handles one read. Every non-empty read is forwarded and reported as
    /// progress in this half's direction; end of stream, a timeout and a
    /// would-block end the half cleanly; an interrupted read is retried; any
    /// other error ends it with that error.
    pub fn on_read(&mut self, outcome: ReadOutcome) -> (r: (Option<Event>, CopyAction))
        requires
            old(self).wf(),
            !old(self).is_finished(),
        ensures
            final(self).wf(),
            final(self).direction() == old(self).direction(),
            reported_bytes(final(self).reported(), final(self).direction()) == final(self).bytes_read(),
            match r.0 {
                Some(e) => final(self).reported() == old(self).reported().push(e),
                None => final(self).reported() == old(self).reported(),
            },
            match outcome {
                ReadOutcome::Data(n) => if n == 0 {
                    r.0 is None && r.1 == CopyAction::Finish && final(self).is_finished()
                        && final(self).bytes_read() == old(self).bytes_read()
                } else {
                    &&& r.0 == Some(
                        if old(self).direction() == Direction::Upload {
                            Event::Upload(n)
                        } else {
                            Event::Download(n)
                        },
                    )
                    &&& r.1 == CopyAction::Forward(n)
                    &&& !final(self).is_finished()
                    &&& final(self).bytes_read() == old(self).bytes_read() + n
                },
                ReadOutcome::Interrupted => r.0 is None && r.1 == CopyAction::ReadAgain
                    && !final(self).is_finished() && final(self).bytes_read() == old(self).bytes_read(),
                ReadOutcome::TimedOut | ReadOutcome::WouldBlock => r.0 is None && r.1
                    == CopyAction::Finish && final(self).is_finished() && final(self).bytes_read()
                    == old(self).bytes_read(),
                ReadOutcome::Failed(m) => r.0 is None && r.1 == CopyAction::Fail(m)
                    && final(self).is_finished() && final(self).bytes_read() == old(self).bytes_read(),
            },
    {
        match outcome {
            ReadOutcome::Data(n) => {
                if n == 0 {
                    self.finished = true;
                    (None, CopyAction::Finish)
                } else {
                    let e = match self.direction {
                        Direction::Upload => Event::Upload(n),
                        Direction::Download => Event::Download(n),
                    };
                    let ghost before = self.reported@;
                    self.reported = Ghost(self.reported@.push(e));
                    self.bytes_read = Ghost((self.bytes_read@ + n) as nat);
                    assert(self.reported@.drop_last() =~= before);
                    (Some(e), CopyAction::Forward(n))
                }
            },
            ReadOutcome::Interrupted => (None, CopyAction::ReadAgain),
            ReadOutcome::TimedOut | ReadOutcome::WouldBlock => {
                self.finished = true;
                (None, CopyAction::Finish)
            },
            ReadOutcome::Failed(m) => {
                self.finished = true;
                (None, CopyAction::Fail(m))
            },
        }
    }
}

/// What a look at the association's control connection found.
#[derive(Clone, Copy, Debug, PartialEq, Eq, Structural)]
pub enum ControlState {
    /// Nothing to read yet: the client keeps the connection open.
    Idle,
    /// Bytes arrived, the connection closed, or the look failed.
    Active,
}

/// Whether a UDP association goes on: only while its control connection
/// stays idle.
pub fn association_continues(control: ControlState) -> (r: bool)
    ensures
        r == (control == ControlState::Idle),
{
    match control {
        ControlState::Idle => true,
        ControlState::Active => false,
    }
}

/// What to do with one datagram of a UDP association.
#[derive(Clone, Debug, PartialEq, Eq)]
pub enum UdpAction {
    /// Ignore it.
    Drop,
    /// Send the datagram's bytes from this offset on to the `host:port` text.
    Forward(Vec<u8>, usize),
    /// Send these bytes to the client.
    Reply(SocketAddress, Vec<u8>),
}

/// The decisions of a SOCKS5 UDP association.
pub struct UdpAssociation {
    client: Option<SocketAddress>,
}

impl UdpAssociation {
    /// The client's UDP endpoint, once a datagram has come from it.
    pub closed spec fn client(&self) -> Option<SocketAddress> {
        self.client
    }

    pub fn new() -> (r: UdpAssociation)
        ensures
            r.client() is None,
    {
        UdpAssociation { client: None }
    }

    /// Handles a datagram from `src`. The first sender is taken as the
    /// client. A datagram from the client is decoded and its payload
    /// forwarded; one from anywhere else is wrapped and sent to the client.
    pub fn on_datagram(&mut self, src: SocketAddress, pkt: &[u8]) -> (r: UdpAction)
        ensures
            final(self).client() == match old(self).client() {
                None => Some(src),
                Some(c) => Some(c),
            },
            ({
                let c = final(self).client()->0;
                if src == c {
                    match decode_udp(pkt@) {
                        None => r is Drop,
                        Some((h, p, data)) => r matches UdpAction::Forward(t, off) && t@ == target_text(
                            h,
                            p,
                        ) && off <= pkt@.len() && pkt@.subrange(off as int, pkt@.len() as int) == data,
                    }
                } else {
                    r matches UdpAction::Reply(to, b) && to == c && b@ == encode_udp(
                        ip_host(src.ip),
                        src.port,
                        pkt@,
                    )
                }
            }),
    {
        let c = match self.client {
            None => src,
            Some(c) => c,
        };
        self.client = Some(c);
        if src.same_as(&c) {
            match decode_socks_udp(pkt) {
                None => UdpAction::Drop,
                Some((h, p, off)) => UdpAction::Forward(destination_text(&h, p), off),
            }
        } else {
            UdpAction::Reply(c, build_socks_udp(src, pkt))
        }
    }
}

} // verus!
