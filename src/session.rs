use vstd::prelude::*;
use vstd::string::{StrSliceExecFns, StringSliceAdditionalSpecFns};
use vstd::utf8::valid_utf8;
use crate::addr::{Family, IpAddress, SocketAddress};
use crate::event::{
    complete_trace, families_match, is_terminal, lemma_push_event, repeatable, stage, valid_trace,
    Event, Protocol, Reason,
};
use crate::http::{is_connect_request, request_target, sniff_http};
use crate::pool::{next_source, IpPool};
use crate::resolve::{ordered_candidates, rank_candidates};
use crate::socks5::{
    build_socks_response, decode_request, decode_socks_request, destination_text, encode_addr,
    failure_reply, greeting_reply, ip_host, offers_no_auth, target_text, CMD_CONNECT,
    CMD_UDP_ASSOCIATE, METHOD_NO_AUTH, METHOD_NONE_ACCEPTABLE, REP_HOST_UNREACHABLE,
    REP_SUCCEEDED, SOCKS_VERSION,
};
use crate::text::{copy_range, duplicate, is_utf8};

verus! {

/// How many opening bytes must be UTF-8 for the connection to be read as text.
pub const TEXT_PREFIX: usize = 16;

/// The opening bytes that decide whether a connection speaks text.
pub open spec fn text_prefix(data: Seq<u8>) -> Seq<u8> {
    if data.len() <= TEXT_PREFIX {
        data
    } else {
        data.take(TEXT_PREFIX as int)
    }
}

/// What the opening bytes of a connection announce.
#[derive(Clone, Copy, Debug, PartialEq, Eq, Structural)]
pub enum Opening {
    TooShort,
    Socks5,
    Text,
    Unknown,
}

/// SOCKS5 when the first of at least three bytes is 5, else text when the
/// opening bytes are UTF-8.
pub open spec fn spec_classify(data: Seq<u8>, text: bool) -> Opening {
    if data.len() < 3 {
        Opening::TooShort
    } else if data[0] == SOCKS_VERSION {
        Opening::Socks5
    } else if text {
        Opening::Text
    } else {
        Opening::Unknown
    }
}

/// Classifies the opening bytes, given whether their first sixteen bytes
/// are valid UTF-8.
pub fn classify(data: &[u8], text: bool) -> (r: Opening)
    ensures
        r == spec_classify(data@, text),
{
    if data.len() < 3 {
        Opening::TooShort
    } else if data[0] == SOCKS_VERSION {
        Opening::Socks5
    } else if text {
        Opening::Text
    } else {
        Opening::Unknown
    }
}

pub open spec fn bad_request_reply() -> Seq<u8> {
    "HTTP/1.1 400 Bad Request\r\n\r\n".spec_bytes()
}

pub open spec fn not_found_reply() -> Seq<u8> {
    "HTTP/1.1 404 Not Found\r\n\r\n".spec_bytes()
}

pub open spec fn server_error_reply() -> Seq<u8> {
    "HTTP/1.1 500 Internal Server Error\r\n\r\n".spec_bytes()
}

pub open spec fn gateway_timeout_reply() -> Seq<u8> {
    "HTTP/1.1 504 Gateway Time-out\r\n\r\n".spec_bytes()
}

pub open spec fn established_reply() -> Seq<u8> {
    "HTTP/1.1 200 Connection Established\r\n\r\n".spec_bytes()
}

/// Where a connection stands.
#[derive(Clone, Copy, Debug, PartialEq, Eq, Structural)]
pub enum Phase {
    /// Nothing read yet.
    Start,
    /// SOCKS5 greeting answered; the request is to be read.
    AwaitRequest,
    /// The target is to be resolved.
    AwaitResolve,
    /// A candidate is being dialed.
    Dialing,
    /// A UDP socket is to be bound for an association.
    AwaitUdpBind,
    /// Bytes are being relayed.
    Relaying,
    /// The connection has ended.
    Closed,
}

/// What the driver of a connection is to do next.
#[derive(Clone, Debug, PartialEq, Eq)]
pub enum Action {
    /// Read the SOCKS5 request from the client.
    ReadRequest,
    /// Resolve this `host:port` text and report the addresses.
    Resolve(Vec<u8>),
    /// Bind a fresh socket to the source address, port 0, and connect it to
    /// the candidate.
    Dial(SocketAddress, IpAddress),
    /// Bind a UDP socket to the source address, port 0.
    BindUdp(IpAddress),
    /// Relay between client and upstream, first sending these bytes upstream.
    Relay(Vec<u8>),
    /// Run the UDP association.
    RelayUdp,
    /// Close the connection.
    Close,
}

/// The phase a connection is in once the driver is asked to do `a`: the
/// phase whose handler takes the result of `a`.
pub open spec fn phase_after(a: Action) -> Phase {
    match a {
        Action::ReadRequest => Phase::AwaitRequest,
        Action::Resolve(_) => Phase::AwaitResolve,
        Action::Dial(_, _) => Phase::Dialing,
        Action::BindUdp(_) => Phase::AwaitUdpBind,
        Action::Relay(_) => Phase::Relaying,
        Action::RelayUdp => Phase::Relaying,
        Action::Close => Phase::Closed,
    }
}

/// Outcome of one dial attempt.
#[derive(Clone, Copy, Debug, PartialEq, Eq)]
pub enum DialOutcome {
    /// Binding the source or connecting failed.
    Failed,
    /// The connect attempt timed out.
    TimedOut,
    /// Connected; the socket's bound local address.
    Connected(SocketAddress),
}

/// Whether an outcome connects the candidate `c` through a socket of its family.
pub open spec fn accepted(c: SocketAddress, outcome: DialOutcome) -> bool {
    outcome matches DialOutcome::Connected(local) && local.ip.spec_family() == c.ip.spec_family()
}

/// The upload of `n` bytes already read from the client, if there are any.
pub open spec fn forward_events(n: nat) -> Seq<Event> {
    if n > 0 {
        seq![Event::Upload(n as usize)]
    } else {
        seq![]
    }
}

/// Events of one dial attempt on `c`; `more` says whether a candidate
/// follows, `sent` how many bytes already read from the client go upstream
/// first.
pub open spec fn dial_step_events(c: SocketAddress, outcome: DialOutcome, more: bool, sent: nat) -> Seq<Event> {
    match outcome {
        DialOutcome::Connected(local) if local.ip.spec_family() == c.ip.spec_family() => seq![
            Event::Connected(local.ip, c),
        ] + forward_events(sent),
        _ => if more {
            seq![Event::Retry]
        } else {
            seq![
                Event::Retry,
                Event::Error(
                    if outcome is TimedOut {
                        Reason::Timeout
                    } else {
                        Reason::Unreachable
                    },
                ),
            ]
        },
    }
}

/// Events of dialing the candidates from index `k` on, attempt `i` having
/// outcome `outcomes[i]`, until one connects or none is left.
pub open spec fn dial_events(cands: Seq<SocketAddress>, outcomes: Seq<DialOutcome>, sent: nat, k: int) -> Seq<Event>
    decreases cands.len() - k,
{
    if k < 0 || k >= cands.len() || k >= outcomes.len() {
        seq![]
    } else {
        let more = k + 1 < cands.len();
        dial_step_events(cands[k], outcomes[k], more, sent) + if !accepted(cands[k], outcomes[k]) && more {
            dial_events(cands, outcomes, sent, k + 1)
        } else {
            seq![]
        }
    }
}

/// With `K` candidates of which the first `K - 1` fail and the last
/// connects, dialing reports exactly `K - 1` retries, then `Connected`, then
/// the upload of the bytes already read from the client, if any.
pub proof fn lemma_retries_then_connected(cands: Seq<SocketAddress>, failures: Seq<DialOutcome>, local: SocketAddress, sent: nat)
    requires
        cands.len() >= 1,
        failures.len() == cands.len() - 1,
        forall|i: int| 0 <= i < failures.len() ==> !accepted(cands[i], #[trigger] failures[i]),
        local.ip.spec_family() == cands.last().ip.spec_family(),
    ensures
        dial_events(cands, failures.push(DialOutcome::Connected(local)), sent, 0) == Seq::new(
            (cands.len() - 1) as nat,
            |i: int| Event::Retry,
        ).push(Event::Connected(local.ip, cands.last())) + forward_events(sent),
{
    lemma_dial_suffix(cands, failures, local, sent, 0);
}

proof fn lemma_dial_suffix(cands: Seq<SocketAddress>, failures: Seq<DialOutcome>, local: SocketAddress, sent: nat, k: int)
    requires
        cands.len() >= 1,
        failures.len() == cands.len() - 1,
        forall|i: int| 0 <= i < failures.len() ==> !accepted(cands[i], #[trigger] failures[i]),
        local.ip.spec_family() == cands.last().ip.spec_family(),
        0 <= k < cands.len(),
    ensures
        dial_events(cands, failures.push(DialOutcome::Connected(local)), sent, k) == Seq::new(
            (cands.len() - 1 - k) as nat,
            |i: int| Event::Retry,
        ).push(Event::Connected(local.ip, cands.last())) + forward_events(sent),
    decreases cands.len() - k,
{
    let outcomes = failures.push(DialOutcome::Connected(local));
    let n = cands.len();
    if k == n - 1 {
        assert(outcomes[k] == DialOutcome::Connected(local));
        assert(accepted(cands[k], outcomes[k]));
        assert(Seq::new(0nat, |i: int| Event::Retry).push(Event::Connected(local.ip, cands.last()))
            =~= seq![Event::Connected(local.ip, cands.last())]);
        assert(dial_events(cands, outcomes, sent, k) =~= seq![Event::Connected(local.ip, cands.last())]
            + forward_events(sent));
    } else {
        lemma_dial_suffix(cands, failures, local, sent, k + 1);
        assert(outcomes[k] == failures[k]);
        assert(!accepted(cands[k], outcomes[k]));
        assert(dial_step_events(cands[k], outcomes[k], true, sent) == seq![Event::Retry]);
        assert(seq![Event::Retry] + (Seq::new((n - 1 - (k + 1)) as nat, |i: int| Event::Retry).push(
            Event::Connected(local.ip, cands.last()),
        ) + forward_events(sent)) =~= Seq::new((n - 1 - k) as nat, |i: int| Event::Retry).push(
            Event::Connected(local.ip, cands.last()),
        ) + forward_events(sent));
    }
}

/// The result of one step: events to report, bytes to write to the client,
/// then what to do.
pub struct Step {
    pub events: Vec<Event>,
    pub reply: Vec<u8>,
    pub action: Action,
}

/// The decisions of one client connection, from its opening bytes to its end.
pub struct Session {
    phase: Phase,
    peer: IpAddress,
    socks: bool,
    protocol: Protocol,
    forward: Vec<u8>,
    request: Vec<u8>,
    candidates: Vec<SocketAddress>,
    index: usize,
    log: Ghost<Seq<Event>>,
}

/// Appends `e` to the reported events and to the connection's history.
fn emit(log: &mut Ghost<Seq<Event>>, out: &mut Vec<Event>, e: Event)
    requires
        valid_trace(old(log)@),
        families_match(old(log)@),
        stage(e) < 7,
        old(log)@.len() == 0 ==> e is Received,
        old(log)@.len() > 0 ==> stage(old(log)@.last()) < stage(e) || (stage(old(log)@.last())
            == stage(e) && repeatable(stage(e))),
        e matches Event::Connected(b, u) ==> b.spec_family() == u.ip.spec_family(),
    ensures
        final(log)@ == old(log)@.push(e),
        final(out)@ == old(out)@.push(e),
        valid_trace(final(log)@),
        families_match(final(log)@),
{
    proof {
        lemma_push_event(log@, e);
    }
    let ghost before = log@;
    *log = Ghost(log@.push(e));
    out.push(e);
    assert forall|i: int| 0 <= i < log@.len() implies (#[trigger] log@[i] matches Event::Connected(
        b,
        u,
    ) ==> b.spec_family() == u.ip.spec_family()) by {
        if i < before.len() {
            assert(before[i] == log@[i]);
        }
    }
}

impl Session {
    /// Events reported so far.
    pub closed spec fn log(&self) -> Seq<Event> {
        self.log@
    }

    pub closed spec fn phase(&self) -> Phase {
        self.phase
    }

    /// The client's address.
    pub closed spec fn peer(&self) -> IpAddress {
        self.peer
    }

    /// Whether the client speaks SOCKS5.
    pub closed spec fn is_socks(&self) -> bool {
        self.socks
    }

    /// The protocol recognised, once it is.
    pub closed spec fn protocol(&self) -> Protocol {
        self.protocol
    }

    /// Bytes to send upstream before relaying.
    pub closed spec fn forward(&self) -> Seq<u8> {
        self.forward@
    }

    /// The SOCKS5 request, as read.
    pub closed spec fn request(&self) -> Seq<u8> {
        self.request@
    }

    /// The candidates to dial, in order.
    pub closed spec fn candidates(&self) -> Seq<SocketAddress> {
        self.candidates@
    }

    /// Index of the candidate being dialed.
    pub closed spec fn index(&self) -> int {
        self.index as int
    }

    /// Whether two states agree on the facts fixed once the connection is
    /// recognised: the client, its protocol, its request and the bytes to
    /// forward.
    pub open spec fn same_facts(&self, other: &Session) -> bool {
        &&& self.peer() == other.peer()
        &&& self.is_socks() == other.is_socks()
        &&& self.protocol() == other.protocol()
        &&& self.request() == other.request()
        &&& self.forward() == other.forward()
    }

    pub closed spec fn last_stage(&self) -> int {
        stage(self.log@.last())
    }

    pub closed spec fn wf(&self) -> bool {
        &&& valid_trace(self.log@)
        &&& families_match(self.log@)
        &&& (self.phase == Phase::Start) == (self.log@.len() == 0)
        &&& match self.phase {
            Phase::Start => true,
            Phase::AwaitRequest => self.last_stage() == 0 && self.socks,
            Phase::AwaitResolve => self.last_stage() == 2 && (self.socks ==> self.request@.len()
                >= 3),
            Phase::Dialing => (self.last_stage() == 2 || self.last_stage() == 3) && self.index
                < self.candidates@.len() && (self.socks ==> self.request@.len() >= 3),
            Phase::AwaitUdpBind => self.last_stage() == 1 && self.socks && self.request@.len() >= 3,
            Phase::Relaying => self.last_stage() == 4 || self.last_stage() == 5,
            Phase::Closed => self.log@.len() > 0 && is_terminal(self.log@.last()),
        }
    }

    /// A connection on which nothing has been read.
    pub fn new() -> (r: Session)
        ensures
            r.wf(),
            r.phase() == Phase::Start,
            r.log() == Seq::<Event>::empty(),
    {
        Session {
            phase: Phase::Start,
            peer: IpAddress::unspecified(Family::V4),
            socks: false,
            protocol: Protocol::Http,
            forward: Vec::new(),
            request: Vec::new(),
            candidates: Vec::new(),
            index: 0,
            log: Ghost(Seq::empty()),
        }
    }

    /// The current phase.
    pub fn current_phase(&self) -> (r: Phase)
        ensures
            r == self.phase(),
    {
        self.phase
    }

    /// Handles the opening bytes read from a client at `peer`: SOCKS5 when
    /// the first byte is 5, HTTP when the first sixteen bytes are UTF-8.
    pub fn on_first_read(&mut self, peer: IpAddress, data: &[u8]) -> (r: Step)
        requires
            old(self).wf(),
            old(self).phase() == Phase::Start,
        ensures
            final(self).wf(),
            final(self).log() == old(self).log() + r.events@,
            valid_trace(final(self).log()),
            families_match(final(self).log()),
            final(self).phase() == Phase::Closed ==> complete_trace(final(self).log()),
            final(self).phase() == phase_after(r.action),
            final(self).peer() == peer,
            match spec_classify(data@, valid_utf8(text_prefix(data@))) {
                Opening::TooShort => r.events@ == seq![Event::Received(peer), Event::Error(Reason::TooShort)]
                    && r.reply@.len() == 0 && r.action is Close,
                Opening::Unknown => r.events@ == seq![
                    Event::Received(peer),
                    Event::Error(Reason::UnknownProtocol),
                ] && r.reply@.len() == 0 && r.action is Close,
                Opening::Socks5 => if offers_no_auth(data@) {
                    r.events@ == seq![Event::Received(peer)] && r.reply@ == seq![
                        SOCKS_VERSION,
                        METHOD_NO_AUTH,
                    ] && r.action is ReadRequest && final(self).is_socks()
                } else {
                    r.events@ == seq![Event::Received(peer), Event::Error(Reason::InvalidAuth)]
                        && r.reply@ == seq![SOCKS_VERSION, METHOD_NONE_ACCEPTABLE] && r.action is Close
                },
                Opening::Text => match request_target(data@) {
                    None => r.events@ == seq![Event::Received(peer), Event::Error(Reason::NoHost)]
                        && r.reply@ == bad_request_reply() && r.action is Close,
                    Some(t) => r.events@.len() == 3 && r.events@[0] == Event::Received(peer)
                        && r.events@[1] == Event::Recognized(
                        if is_connect_request(data@) {
                            Protocol::Https
                        } else {
                            Protocol::Http
                        },
                    ) && (r.events@[2] matches Event::Resolved(v) && v@ == t) && (r.action matches Action::Resolve(
                        v,
                    ) && v@ == t) && r.reply@.len() == 0 && !final(self).is_socks()
                        && final(self).protocol() == (if is_connect_request(data@) {
                        Protocol::Https
                    } else {
                        Protocol::Http
                    }) && final(self).forward() == if is_connect_request(data@) {
                        Seq::<u8>::empty()
                    } else {
                        data@
                    },
                },
            },
    {
        let mut events: Vec<Event> = Vec::new();
        self.peer = peer;
        emit(&mut self.log, &mut events, Event::Received(peer));
        let k = if data.len() < TEXT_PREFIX {
            data.len()
        } else {
            TEXT_PREFIX
        };
        let prefix = copy_range(data, 0, k);
        assert(prefix@ =~= text_prefix(data@));
        let text = is_utf8(prefix.as_slice());
        match classify(data, text) {
            Opening::TooShort => {
                emit(&mut self.log, &mut events, Event::Error(Reason::TooShort));
                self.phase = Phase::Closed;
                Step { events, reply: Vec::new(), action: Action::Close }
            },
            Opening::Unknown => {
                emit(&mut self.log, &mut events, Event::Error(Reason::UnknownProtocol));
                self.phase = Phase::Closed;
                Step { events, reply: Vec::new(), action: Action::Close }
            },
            Opening::Socks5 => {
                let reply = greeting_reply(data);
                if reply[1] == METHOD_NO_AUTH {
                    self.socks = true;
                    self.phase = Phase::AwaitRequest;
                    Step { events, reply, action: Action::ReadRequest }
                } else {
                    emit(&mut self.log, &mut events, Event::Error(Reason::InvalidAuth));
                    self.phase = Phase::Closed;
                    Step { events, reply, action: Action::Close }
                }
            },
            Opening::Text => {
                match sniff_http(data) {
                    None => {
                        emit(&mut self.log, &mut events, Event::Error(Reason::NoHost));
                        self.phase = Phase::Closed;
                        let reply = "HTTP/1.1 400 Bad Request\r\n\r\n".as_bytes_vec();
                        Step { events, reply, action: Action::Close }
                    },
                    Some(req) => {
                        let protocol = if req.is_connect {
                            Protocol::Https
                        } else {
                            Protocol::Http
                        };
                        self.protocol = protocol;
                        self.socks = false;
                        if req.is_connect {
                            self.forward = Vec::new();
                        } else {
                            self.forward = copy_range(data, 0, data.len());
                            assert(data@.subrange(0, data@.len() as int) =~= data@);
                        }
                        emit(&mut self.log, &mut events, Event::Recognized(protocol));
                        let target = duplicate(&req.target);
                        emit(&mut self.log, &mut events, Event::Resolved(target));
                        self.phase = Phase::AwaitResolve;
                        Step { events, reply: Vec::new(), action: Action::Resolve(req.target) }
                    },
                }
            },
        }
    }

    /// Handles the SOCKS5 request read from the client.
    pub fn on_request(&mut self, data: &[u8], pool: &mut IpPool) -> (r: Step)
        requires
            old(self).wf(),
            old(self).phase() == Phase::AwaitRequest,
            old(pool).wf(),
        ensures
            final(self).wf(),
            final(pool).wf(),
            final(pool).v4_items() == old(pool).v4_items(),
            final(pool).v6_items() == old(pool).v6_items(),
            final(self).log() == old(self).log() + r.events@,
            valid_trace(final(self).log()),
            families_match(final(self).log()),
            final(self).phase() == Phase::Closed ==> complete_trace(final(self).log()),
            final(self).phase() == phase_after(r.action),
            r.reply@.len() == 0,
            final(self).is_socks() == old(self).is_socks(),
            final(self).peer() == old(self).peer(),
            final(self).forward() == old(self).forward(),
            !(r.action is BindUdp) ==> *final(pool) == *old(pool),
            match decode_request(data@) {
                None => r.events@ == seq![Event::Error(Reason::BadRequest)] && r.action is Close,
                Some((q, _)) => if q.cmd == CMD_CONNECT {
                    r.events@.len() == 2 && r.events@[0] == Event::Recognized(Protocol::Socks5Tcp)
                        && (r.events@[1] matches Event::Resolved(v) && v@ == target_text(
                        q.host,
                        q.port,
                    )) && (r.action matches Action::Resolve(v) && v@ == target_text(q.host, q.port))
                        && final(self).request() == data@ && final(self).protocol() == Protocol::Socks5Tcp
                } else if q.cmd == CMD_UDP_ASSOCIATE {
                    r.events@ == seq![Event::Recognized(Protocol::Socks5Udp)] && (r.action matches Action::BindUdp(
                        src,
                    ) && next_source(*old(pool), *final(pool), old(self).peer().spec_family(), src))
                        && final(self).request() == data@ && final(self).protocol() == Protocol::Socks5Udp
                } else {
                    r.events@ == seq![Event::Error(Reason::UnsupportedCommand(q.cmd))] && r.action is Close
                },
            },
    {
        let mut events: Vec<Event> = Vec::new();
        match decode_socks_request(data) {
            None => {
                emit(&mut self.log, &mut events, Event::Error(Reason::BadRequest));
                self.phase = Phase::Closed;
                Step { events, reply: Vec::new(), action: Action::Close }
            },
            Some((q, _)) => {
                if q.cmd == CMD_CONNECT {
                    self.protocol = Protocol::Socks5Tcp;
                    self.request = copy_range(data, 0, data.len());
                    assert(data@.subrange(0, data@.len() as int) =~= data@);
                    emit(&mut self.log, &mut events, Event::Recognized(Protocol::Socks5Tcp));
                    let target = destination_text(&q.host, q.port);
                    let shown = duplicate(&target);
                    emit(&mut self.log, &mut events, Event::Resolved(shown));
                    self.phase = Phase::AwaitResolve;
                    Step { events, reply: Vec::new(), action: Action::Resolve(target) }
                } else if q.cmd == CMD_UDP_ASSOCIATE {
                    self.protocol = Protocol::Socks5Udp;
                    self.request = copy_range(data, 0, data.len());
                    assert(data@.subrange(0, data@.len() as int) =~= data@);
                    emit(&mut self.log, &mut events, Event::Recognized(Protocol::Socks5Udp));
                    let src = pool.next_for(self.peer.family());
                    self.phase = Phase::AwaitUdpBind;
                    Step { events, reply: Vec::new(), action: Action::BindUdp(src) }
                } else {
                    emit(&mut self.log, &mut events, Event::Error(Reason::UnsupportedCommand(q.cmd)));
                    self.phase = Phase::Closed;
                    Step { events, reply: Vec::new(), action: Action::Close }
                }
            },
        }
    }

    /// The reply owed to the client when the connection fails before relaying.
    pub open spec fn failure_bytes(&self, timed_out: bool) -> Seq<u8> {
        if self.is_socks() {
            self.request().update(1, REP_HOST_UNREACHABLE)
        } else if timed_out {
            gateway_timeout_reply()
        } else {
            server_error_reply()
        }
    }

    fn failure_response(&self, timed_out: bool) -> (r: Vec<u8>)
        requires
            self.socks ==> self.request@.len() >= 3,
        ensures
            r@ == self.failure_bytes(timed_out),
    {
        if self.socks {
            failure_reply(self.request.as_slice())
        } else if timed_out {
            "HTTP/1.1 504 Gateway Time-out\r\n\r\n".as_bytes_vec()
        } else {
            "HTTP/1.1 500 Internal Server Error\r\n\r\n".as_bytes_vec()
        }
    }

    /// Handles the addresses the target resolved to; `None` when resolution
    /// failed.
    pub fn on_resolved(&mut self, addrs: Option<Vec<SocketAddress>>, ipv6_first: Option<bool>, pool: &mut IpPool) -> (r: Step)
        requires
            old(self).wf(),
            old(self).phase() == Phase::AwaitResolve,
            old(pool).wf(),
        ensures
            final(self).wf(),
            final(pool).wf(),
            final(pool).v4_items() == old(pool).v4_items(),
            final(pool).v6_items() == old(pool).v6_items(),
            final(self).log() == old(self).log() + r.events@,
            valid_trace(final(self).log()),
            families_match(final(self).log()),
            final(self).phase() == Phase::Closed ==> complete_trace(final(self).log()),
            final(self).phase() == phase_after(r.action),
            final(self).same_facts(old(self)),
            !(r.action is Dial) ==> *final(pool) == *old(pool),
            match addrs {
                Some(v) if v@.len() > 0 => r.events@.len() == 0 && r.reply@.len() == 0
                    && final(self).phase() == Phase::Dialing && final(self).candidates()
                    == ordered_candidates(
                    v@,
                    ipv6_first,
                    old(pool).v4_items().len() > 0,
                    old(pool).v6_items().len() > 0,
                ) && final(self).index() == 0 && (r.action matches Action::Dial(c, src) && c
                    == final(self).candidates()[0] && next_source(*old(pool), *final(pool), c.ip.spec_family(), src)),
                _ => r.events@ == seq![Event::Error(Reason::DnsFailed)] && r.reply@ == if old(
                    self,
                ).is_socks() {
                    old(self).request().update(1, REP_HOST_UNREACHABLE)
                } else {
                    not_found_reply()
                } && r.action is Close,
            },
    {
        let mut events: Vec<Event> = Vec::new();
        let ranked = match addrs {
            Some(v) => rank_candidates(v, ipv6_first, pool),
            None => None,
        };
        match ranked {
            Some(c) => {
                let first = c[0];
                let src = pool.next_for(first.ip.family());
                self.candidates = c;
                self.index = 0;
                self.phase = Phase::Dialing;
                Step { events, reply: Vec::new(), action: Action::Dial(first, src) }
            },
            None => {
                emit(&mut self.log, &mut events, Event::Error(Reason::DnsFailed));
                let reply = if self.socks {
                    failure_reply(self.request.as_slice())
                } else {
                    "HTTP/1.1 404 Not Found\r\n\r\n".as_bytes_vec()
                };
                self.phase = Phase::Closed;
                Step { events, reply, action: Action::Close }
            },
        }
    }

    /// The reply owed to the client once the upstream is connected, bound
    /// locally at `local`.
    pub open spec fn connected_bytes(&self, local: SocketAddress) -> Seq<u8> {
        if self.is_socks() {
            seq![SOCKS_VERSION, REP_SUCCEEDED, 0u8] + encode_addr(ip_host(local.ip), local.port)
        } else if self.protocol() == Protocol::Https {
            established_reply()
        } else {
            Seq::<u8>::empty()
        }
    }

    /// Handles the outcome of dialing the current candidate. A failure is
    /// reported as a retry and the next candidate is dialed; when none is
    /// left the connection fails.
    pub fn on_dial(&mut self, outcome: DialOutcome, pool: &mut IpPool) -> (r: Step)
        requires
            old(self).wf(),
            old(self).phase() == Phase::Dialing,
            old(pool).wf(),
        ensures
            final(self).wf(),
            final(pool).wf(),
            final(pool).v4_items() == old(pool).v4_items(),
            final(pool).v6_items() == old(pool).v6_items(),
            final(self).log() == old(self).log() + r.events@,
            valid_trace(final(self).log()),
            families_match(final(self).log()),
            final(self).phase() == Phase::Closed ==> complete_trace(final(self).log()),
            final(self).phase() == phase_after(r.action),
            final(self).candidates() == old(self).candidates(),
            final(self).same_facts(old(self)),
            !(r.action is Dial) ==> *final(pool) == *old(pool),
            r.events@ == dial_step_events(
                old(self).candidates()[old(self).index()],
                outcome,
                old(self).index() + 1 < old(self).candidates().len(),
                old(self).forward().len(),
            ),
            ({
                let c = old(self).candidates()[old(self).index()];
                match outcome {
                    DialOutcome::Connected(local) if local.ip.spec_family() == c.ip.spec_family() => {
                        &&& r.events@ == seq![Event::Connected(local.ip, c)] + forward_events(
                            old(self).forward().len(),
                        )
                        &&& r.reply@ == old(self).connected_bytes(local)
                        &&& r.action matches Action::Relay(f) && f@ == old(self).forward()
                        &&& final(self).phase() == Phase::Relaying
                    },
                    _ => if old(self).index() + 1 < old(self).candidates().len() {
                        &&& r.events@ == seq![Event::Retry]
                        &&& r.reply@.len() == 0
                        &&& final(self).index() == old(self).index() + 1
                        &&& r.action matches Action::Dial(n, src) && n == old(self).candidates()[old(
                            self,
                        ).index() + 1] && next_source(*old(pool), *final(pool), n.ip.spec_family(), src)
                    } else {
                        &&& r.events@ == seq![
                            Event::Retry,
                            Event::Error(
                                if outcome is TimedOut {
                                    Reason::Timeout
                                } else {
                                    Reason::Unreachable
                                },
                            ),
                        ]
                        &&& r.reply@ == old(self).failure_bytes(outcome is TimedOut)
                        &&& r.action is Close
                    },
                }
            }),
    {
        let mut events: Vec<Event> = Vec::new();
        let c = self.candidates[self.index];
        let timed_out = match outcome {
            DialOutcome::TimedOut => true,
            _ => false,
        };
        if let DialOutcome::Connected(local) = outcome {
            if local.ip.family() == c.ip.family() {
                emit(&mut self.log, &mut events, Event::Connected(local.ip, c));
                let sent = self.forward.len();
                if sent > 0 {
                    emit(&mut self.log, &mut events, Event::Upload(sent));
                }
                assert(events@ =~= seq![Event::Connected(local.ip, c)] + forward_events(
                    self.forward@.len(),
                ));
                let reply = if self.socks {
                    build_socks_response(REP_SUCCEEDED, local)
                } else if self.protocol == Protocol::Https {
                    "HTTP/1.1 200 Connection Established\r\n\r\n".as_bytes_vec()
                } else {
                    Vec::new()
                };
                let forward = duplicate(&self.forward);
                self.phase = Phase::Relaying;
                return Step { events, reply, action: Action::Relay(forward) };
            }
        }
        emit(&mut self.log, &mut events, Event::Retry);
        if self.index < self.candidates.len() - 1 {
            self.index = self.index + 1;
            let n = self.candidates[self.index];
            let src = pool.next_for(n.ip.family());
            Step { events, reply: Vec::new(), action: Action::Dial(n, src) }
        } else {
            let reason = if timed_out {
                Reason::Timeout
            } else {
                Reason::Unreachable
            };
            emit(&mut self.log, &mut events, Event::Error(reason));
            let reply = self.failure_response(timed_out);
            self.phase = Phase::Closed;
            Step { events, reply, action: Action::Close }
        }
    }

    /// Handles the UDP socket bound for an association: its local address,
    /// or the error that prevented it.
    pub fn on_udp_bound(&mut self, bound: Result<SocketAddress, String>) -> (r: Step)
        requires
            old(self).wf(),
            old(self).phase() == Phase::AwaitUdpBind,
        ensures
            final(self).wf(),
            final(self).log() == old(self).log() + r.events@,
            final(self).same_facts(old(self)),
            valid_trace(final(self).log()),
            families_match(final(self).log()),
            final(self).phase() == Phase::Closed ==> complete_trace(final(self).log()),
            final(self).phase() == phase_after(r.action),
            match bound {
                Ok(local) => r.events@ == seq![Event::Connected(local.ip, local)] && r.reply@ == seq![
                    SOCKS_VERSION,
                    REP_SUCCEEDED,
                    0u8,
                ] + encode_addr(ip_host(local.ip), local.port) && r.action is RelayUdp,
                Err(m) => r.events@ == seq![Event::Error(Reason::Io(m))] && r.reply@ == old(
                    self,
                ).request().update(1, REP_HOST_UNREACHABLE),
            },
    {
        let mut events: Vec<Event> = Vec::new();
        match bound {
            Ok(local) => {
                emit(&mut self.log, &mut events, Event::Connected(local.ip, local));
                let reply = build_socks_response(REP_SUCCEEDED, local);
                self.phase = Phase::Relaying;
                Step { events, reply, action: Action::RelayUdp }
            },
            Err(m) => {
                emit(&mut self.log, &mut events, Event::Error(Reason::Io(m)));
                let reply = failure_reply(self.request.as_slice());
                self.phase = Phase::Closed;
                Step { events, reply, action: Action::Close }
            },
        }
    }

    /// Handles the end of relaying: both directions finished cleanly, or one
    /// failed with an error.
    pub fn on_relay_end(&mut self, result: Result<(), String>) -> (r: Step)
        requires
            old(self).wf(),
            old(self).phase() == Phase::Relaying,
        ensures
            final(self).wf(),
            final(self).log() == old(self).log() + r.events@,
            final(self).same_facts(old(self)),
            complete_trace(final(self).log()),
            families_match(final(self).log()),
            final(self).phase() == Phase::Closed,
            r.action is Close,
            r.reply@.len() == 0,
            match result {
                Ok(_) => r.events@ == seq![Event::Done],
                Err(m) => r.events@ == seq![Event::Error(Reason::Io(m))],
            },
    {
        let mut events: Vec<Event> = Vec::new();
        match result {
            Ok(_) => emit(&mut self.log, &mut events, Event::Done),
            Err(m) => emit(&mut self.log, &mut events, Event::Error(Reason::Io(m))),
        }
        self.phase = Phase::Closed;
        Step { events, reply: Vec::new(), action: Action::Close }
    }

    /// Handles a connection whose opening read failed, from a client at
    /// `peer`: it is reported as received, then as failed.
    pub fn on_read_failed(&mut self, peer: IpAddress, message: String) -> (r: Step)
        requires
            old(self).wf(),
            old(self).phase() == Phase::Start,
        ensures
            final(self).wf(),
            final(self).log() == old(self).log() + r.events@,
            complete_trace(final(self).log()),
            families_match(final(self).log()),
            final(self).phase() == Phase::Closed,
            final(self).peer() == peer,
            r.action is Close,
            r.reply@.len() == 0,
            r.events@ == seq![Event::Received(peer), Event::Error(Reason::Io(message))],
    {
        let mut events: Vec<Event> = Vec::new();
        self.peer = peer;
        emit(&mut self.log, &mut events, Event::Received(peer));
        emit(&mut self.log, &mut events, Event::Error(Reason::Io(message)));
        self.phase = Phase::Closed;
        Step { events, reply: Vec::new(), action: Action::Close }
    }

    /// Handles an I/O error on the client side before relaying began.
    pub fn on_io_error(&mut self, message: String) -> (r: Step)
        requires
            old(self).wf(),
            old(self).phase() != Phase::Start,
            old(self).phase() != Phase::Closed,
        ensures
            final(self).wf(),
            final(self).log() == old(self).log() + r.events@,
            final(self).same_facts(old(self)),
            complete_trace(final(self).log()),
            families_match(final(self).log()),
            final(self).phase() == Phase::Closed,
            r.action is Close,
            r.reply@.len() == 0,
            r.events@ == seq![Event::Error(Reason::Io(message))],
    {
        let mut events: Vec<Event> = Vec::new();
        emit(&mut self.log, &mut events, Event::Error(Reason::Io(message)));
        self.phase = Phase::Closed;
        Step { events, reply: Vec::new(), action: Action::Close }
    }
}

} // verus!
