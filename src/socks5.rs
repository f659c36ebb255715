use vstd::prelude::*;
use crate::addr::{IpAddress, SocketAddress};
use vstd::utf8::valid_utf8;
use crate::text::{copy_range, decimal, hex, is_utf8, push_all, push_digits};

verus! {

broadcast use vstd::array::group_array_axioms;

pub const SOCKS_VERSION: u8 = 5;
pub const ATYP_IPV4: u8 = 1;
pub const ATYP_DOMAIN: u8 = 3;
pub const ATYP_IPV6: u8 = 4;
pub const CMD_CONNECT: u8 = 1;
pub const CMD_UDP_ASSOCIATE: u8 = 3;
pub const REP_SUCCEEDED: u8 = 0;
pub const REP_HOST_UNREACHABLE: u8 = 4;
pub const METHOD_NO_AUTH: u8 = 0;
pub const METHOD_NONE_ACCEPTABLE: u8 = 0xff;

/// Destination host named by a SOCKS5 request or datagram.
#[derive(Clone, Debug, PartialEq, Eq)]
pub enum TargetHost {
    Ip(IpAddress),
    Domain(Vec<u8>),
}

/// A host as mathematics sees it: its kind and its address bytes.
pub enum HostView {
    V4(Seq<u8>),
    V6(Seq<u8>),
    Domain(Seq<u8>),
}

impl HostView {
    /// Whether the host can be written on the wire.
    pub open spec fn valid(self) -> bool {
        match self {
            HostView::V4(a) => a.len() == 4,
            HostView::V6(a) => a.len() == 16,
            HostView::Domain(d) => d.len() <= 255 && valid_utf8(d),
        }
    }
}

pub open spec fn ip_host(ip: IpAddress) -> HostView {
    match ip {
        IpAddress::V4(a) => HostView::V4(a@),
        IpAddress::V6(a) => HostView::V6(a@),
    }
}

impl View for TargetHost {
    type V = HostView;

    open spec fn view(&self) -> HostView {
        match self {
            TargetHost::Ip(ip) => ip_host(*ip),
            TargetHost::Domain(d) => HostView::Domain(d@),
        }
    }
}

/// The two bytes of a port, big-endian.
pub open spec fn port_bytes(p: u16) -> Seq<u8> {
    seq![(p / 256) as u8, (p % 256) as u8]
}

/// The port written by two big-endian bytes.
pub open spec fn port_from(hi: u8, lo: u8) -> u16 {
    (hi as int * 256 + lo as int) as u16
}

/// Wire form of an address: `ATYP ADDR PORT`.
pub open spec fn encode_addr(h: HostView, port: u16) -> Seq<u8> {
    match h {
        HostView::V4(a) => seq![ATYP_IPV4] + a + port_bytes(port),
        HostView::V6(a) => seq![ATYP_IPV6] + a + port_bytes(port),
        HostView::Domain(d) => seq![ATYP_DOMAIN, d.len() as u8] + d + port_bytes(port),
    }
}

/// Reads `ATYP ADDR PORT` at the start of `s`: the host, the port and the
/// number of bytes the address takes. A domain name must be UTF-8.
pub open spec fn decode_addr(s: Seq<u8>) -> Option<(HostView, u16, int)> {
    if s.len() == 0 {
        None
    } else if s[0] == ATYP_IPV4 {
        if s.len() >= 7 {
            Some((HostView::V4(s.subrange(1, 5)), port_from(s[5], s[6]), 7))
        } else {
            None
        }
    } else if s[0] == ATYP_IPV6 {
        if s.len() >= 19 {
            Some((HostView::V6(s.subrange(1, 17)), port_from(s[17], s[18]), 19))
        } else {
            None
        }
    } else if s[0] == ATYP_DOMAIN {
        if s.len() >= 2 && s.len() >= 4 + s[1] && valid_utf8(s.subrange(2, 2 + s[1] as int)) {
            let l = s[1] as int;
            Some((HostView::Domain(s.subrange(2, 2 + l)), port_from(s[2 + l], s[3 + l]), 4 + l))
        } else {
            None
        }
    } else {
        None
    }
}

pub open spec fn decoded_view(r: Option<(TargetHost, u16, usize)>) -> Option<(HostView, u16, int)> {
    match r {
        Some((h, p, n)) => Some((h@, p, n as int)),
        None => None,
    }
}

/// An address decodes to what was encoded, whatever bytes follow it.
pub proof fn lemma_addr_round_trip(h: HostView, port: u16, rest: Seq<u8>)
    requires
        h.valid(),
    ensures
        decode_addr(encode_addr(h, port) + rest) == Some((h, port, encode_addr(h, port).len() as int)),
{
    let s = encode_addr(h, port) + rest;
    assert(port_from((port / 256) as u8, (port % 256) as u8) == port);
    match h {
        HostView::V4(a) => {
            assert(s.subrange(1, 5) =~= a);
        },
        HostView::V6(a) => {
            assert(s.subrange(1, 17) =~= a);
        },
        HostView::Domain(d) => {
            assert(s.subrange(2, 2 + d.len() as int) =~= d);
        },
    }
}

/// Decodes `ATYP ADDR PORT` at offset `at` of `buf`.
pub fn decode_addr_at(buf: &[u8], at: usize) -> (r: Option<(TargetHost, u16, usize)>)
    requires
        at <= buf@.len(),
    ensures
        decoded_view(r) == decode_addr(buf@.subrange(at as int, buf@.len() as int)),
{
    let ghost s = buf@.subrange(at as int, buf@.len() as int);
    let len = buf.len() - at;
    if len == 0 {
        return None;
    }
    let atyp = buf[at];
    if atyp == ATYP_IPV4 {
        if len < 7 {
            return None;
        }
        let a: [u8; 4] = [buf[at + 1], buf[at + 2], buf[at + 3], buf[at + 4]];
        let port: u16 = buf[at + 5] as u16 * 256 + buf[at + 6] as u16;
        assert(a@ =~= s.subrange(1, 5));
        Some((TargetHost::Ip(IpAddress::V4(a)), port, 7))
    } else if atyp == ATYP_IPV6 {
        if len < 19 {
            return None;
        }
        let a: [u8; 16] = [
            buf[at + 1],
            buf[at + 2],
            buf[at + 3],
            buf[at + 4],
            buf[at + 5],
            buf[at + 6],
            buf[at + 7],
            buf[at + 8],
            buf[at + 9],
            buf[at + 10],
            buf[at + 11],
            buf[at + 12],
            buf[at + 13],
            buf[at + 14],
            buf[at + 15],
            buf[at + 16],
        ];
        let port: u16 = buf[at + 17] as u16 * 256 + buf[at + 18] as u16;
        assert(a@ =~= s.subrange(1, 17));
        Some((TargetHost::Ip(IpAddress::V6(a)), port, 19))
    } else if atyp == ATYP_DOMAIN {
        if len < 2 {
            return None;
        }
        let l = buf[at + 1] as usize;
        if len < 4 + l {
            return None;
        }
        let d = copy_range(buf, at + 2, at + 2 + l);
        assert(d@ =~= s.subrange(2, 2 + l as int));
        if !is_utf8(d.as_slice()) {
            return None;
        }
        let port: u16 = buf[at + 2 + l] as u16 * 256 + buf[at + 3 + l] as u16;
        assert(d@ =~= s.subrange(2, 2 + l as int));
        Some((TargetHost::Domain(d), port, 4 + l))
    } else {
        None
    }
}

/// Appends `ATYP ADDR PORT` for `h` and `port` to `out`.
pub fn push_addr(out: &mut Vec<u8>, h: &TargetHost, port: u16)
    requires
        h@.valid(),
    ensures
        final(out)@ == old(out)@ + encode_addr(h@, port),
{
    match h {
        TargetHost::Ip(IpAddress::V4(a)) => {
            out.push(ATYP_IPV4);
            push_all(out, a.as_slice());
        },
        TargetHost::Ip(IpAddress::V6(a)) => {
            out.push(ATYP_IPV6);
            push_all(out, a.as_slice());
        },
        TargetHost::Domain(d) => {
            out.push(ATYP_DOMAIN);
            out.push(d.len() as u8);
            push_all(out, d.as_slice());
        },
    }
    out.push((port / 256) as u8);
    out.push((port % 256) as u8);
    assert(out@ =~= old(out)@ + encode_addr(h@, port));
}

/// A SOCKS5 request: command, destination host and port.
#[derive(Clone, Debug, PartialEq, Eq)]
pub struct SocksRequest {
    pub cmd: u8,
    pub host: TargetHost,
    pub port: u16,
}

pub struct RequestView {
    pub cmd: u8,
    pub host: HostView,
    pub port: u16,
}

impl View for SocksRequest {
    type V = RequestView;

    open spec fn view(&self) -> RequestView {
        RequestView { cmd: self.cmd, host: self.host@, port: self.port }
    }
}

/// Wire form of a request: `05 CMD 00 ATYP ADDR PORT`.
pub open spec fn encode_request(r: RequestView) -> Seq<u8> {
    seq![SOCKS_VERSION, r.cmd, 0u8] + encode_addr(r.host, r.port)
}

/// Reads a request at the start of `s`, with the number of bytes it takes.
/// The version and reserved bytes are not checked.
pub open spec fn decode_request(s: Seq<u8>) -> Option<(RequestView, int)> {
    if s.len() < 3 {
        None
    } else {
        match decode_addr(s.subrange(3, s.len() as int)) {
            Some((h, p, n)) => Some((RequestView { cmd: s[1], host: h, port: p }, 3 + n)),
            None => None,
        }
    }
}

/// A request decodes to what was encoded, for every supported address type
/// and every port.
pub proof fn lemma_request_round_trip(r: RequestView)
    requires
        r.host.valid(),
    ensures
        decode_request(encode_request(r)) == Some((r, encode_request(r).len() as int)),
{
    let s = encode_request(r);
    let a = encode_addr(r.host, r.port);
    assert(s.subrange(3, s.len() as int) =~= a + Seq::<u8>::empty());
    lemma_addr_round_trip(r.host, r.port, Seq::<u8>::empty());
}

/// Encodes a request.
pub fn encode_socks_request(req: &SocksRequest) -> (r: Vec<u8>)
    requires
        req.host@.valid(),
    ensures
        r@ == encode_request(req@),
{
    let mut out: Vec<u8> = Vec::new();
    out.push(SOCKS_VERSION);
    out.push(req.cmd);
    out.push(0);
    push_addr(&mut out, &req.host, req.port);
    assert(out@ =~= encode_request(req@));
    out
}

/// Decodes a request, with the number of bytes it takes.
pub fn decode_socks_request(buf: &[u8]) -> (r: Option<(SocksRequest, usize)>)
    ensures
        match r {
            Some((q, n)) => decode_request(buf@) == Some((q@, n as int)),
            None => decode_request(buf@) is None,
        },
{
    if buf.len() < 3 {
        return None;
    }
    match decode_addr_at(buf, 3) {
        Some((host, port, n)) => Some((SocksRequest { cmd: buf[1], host, port }, 3 + n)),
        None => None,
    }
}

/// Text of a group of an IPv6 address.
pub open spec fn v6_group(a: Seq<u8>, i: int) -> nat {
    (a[2 * i] as nat) * 256 + (a[2 * i + 1] as nat)
}

/// The first `k` groups of an IPv6 address in hex, separated by `:`.
pub open spec fn v6_groups_text(a: Seq<u8>, k: nat) -> Seq<u8>
    decreases k,
{
    if k == 0 {
        seq![]
    } else if k == 1 {
        hex(v6_group(a, 0))
    } else {
        v6_groups_text(a, (k - 1) as nat) + seq![58u8] + hex(v6_group(a, k - 1))
    }
}

/// Text of a host: dotted decimal for IPv4, eight bracketed hex groups for
/// IPv6, the name itself for a domain.
pub open spec fn host_text(h: HostView) -> Seq<u8> {
    match h {
        HostView::V4(a) => decimal(a[0] as nat) + seq![46u8] + decimal(a[1] as nat) + seq![46u8]
            + decimal(a[2] as nat) + seq![46u8] + decimal(a[3] as nat),
        HostView::V6(a) => seq![91u8] + v6_groups_text(a, 8) + seq![93u8],
        HostView::Domain(d) => d,
    }
}

/// Text of a destination, `host:port`.
pub open spec fn target_text(h: HostView, port: u16) -> Seq<u8> {
    host_text(h) + seq![58u8] + decimal(port as nat)
}

/// Writes a destination as `host:port`.
pub fn destination_text(h: &TargetHost, port: u16) -> (r: Vec<u8>)
    ensures
        r@ == target_text(h@, port),
{
    let mut out: Vec<u8> = Vec::new();
    match h {
        TargetHost::Ip(IpAddress::V4(a)) => {
            push_digits(&mut out, a[0] as u64, 10);
            out.push(46);
            push_digits(&mut out, a[1] as u64, 10);
            out.push(46);
            push_digits(&mut out, a[2] as u64, 10);
            out.push(46);
            push_digits(&mut out, a[3] as u64, 10);
            assert(out@ =~= host_text(h@));
        },
        TargetHost::Ip(IpAddress::V6(a)) => {
            out.push(91);
            let mut k: usize = 0;
            while k < 8
                invariant
                    0 <= k <= 8,
                    a@.len() == 16,
                    out@ == seq![91u8] + v6_groups_text(a@, k as nat),
                decreases 8 - k,
            {
                if k > 0 {
                    out.push(58);
                }
                let g: u64 = a[2 * k] as u64 * 256 + a[2 * k + 1] as u64;
                assert(g as nat == v6_group(a@, k as int));
                push_digits(&mut out, g, 16);
                k = k + 1;
                assert(out@ =~= seq![91u8] + v6_groups_text(a@, k as nat));
            }
            out.push(93);
            assert(out@ =~= host_text(h@));
        },
        TargetHost::Domain(d) => {
            push_all(&mut out, d.as_slice());
            assert(out@ =~= host_text(h@));
        },
    }
    out.push(58);
    push_digits(&mut out, port as u64, 10);
    assert(out@ =~= target_text(h@, port));
    out
}

/// Reads `ATYP ADDR PORT` at the start of `buffer` and gives the destination
/// as `host:port` text, with the number of bytes the address takes.
pub fn socks_prase_host(buffer: &[u8]) -> (r: Option<(Vec<u8>, usize)>)
    ensures
        match decode_addr(buffer@) {
            Some((h, p, n)) => r matches Some((t, m)) && t@ == target_text(h, p) && m == n,
            None => r is None,
        },
{
    assert(buffer@.subrange(0, buffer@.len() as int) =~= buffer@);
    match decode_addr_at(buffer, 0) {
        Some((h, p, n)) => Some((destination_text(&h, p), n)),
        None => None,
    }
}

/// Reads a request: its command, its destination as `host:port` text, and
/// the number of bytes its address takes.
pub fn socks_prase_request(buffer: &[u8]) -> (r: Option<(u8, Vec<u8>, usize)>)
    ensures
        match decode_request(buffer@) {
            Some((q, n)) => r matches Some((c, t, m)) && c == q.cmd && t@ == target_text(
                q.host,
                q.port,
            ) && m == n - 3,
            None => r is None,
        },
{
    match decode_socks_request(buffer) {
        Some((q, n)) => Some((q.cmd, destination_text(&q.host, q.port), n - 3)),
        None => None,
    }
}

/// Whether the greeting `05 NMETHODS METHODS...` offers the "no
/// authentication" method among its first NMETHODS methods.
pub open spec fn offers_no_auth(greeting: Seq<u8>) -> bool {
    greeting.len() >= 2 && exists|i: int|
        2 <= i < greeting.len() && i < 2 + greeting[1] && #[trigger] greeting[i] == METHOD_NO_AUTH
}

/// Answer to a greeting: `05 00` when "no authentication" is offered, else
/// `05 FF`, after which the connection is closed.
pub fn greeting_reply(greeting: &[u8]) -> (r: Vec<u8>)
    ensures
        r@ == if offers_no_auth(greeting@) {
            seq![SOCKS_VERSION, METHOD_NO_AUTH]
        } else {
            seq![SOCKS_VERSION, METHOD_NONE_ACCEPTABLE]
        },
{
    if greeting.len() < 2 {
        return vec![SOCKS_VERSION, METHOD_NONE_ACCEPTABLE];
    }
    let end: usize = if greeting.len() < 2 + greeting[1] as usize {
        greeting.len()
    } else {
        2 + greeting[1] as usize
    };
    let mut i: usize = 2;
    while i < end
        invariant
            2 <= i,
            greeting@.len() >= 2,
            end <= greeting@.len(),
            end <= 2 + greeting@[1],
            end == greeting@.len() || end == 2 + greeting@[1],
            forall|j: int| 2 <= j < i && j < end ==> greeting[j] != METHOD_NO_AUTH,
        decreases end - i,
    {
        if greeting[i] == METHOD_NO_AUTH {
            return vec![SOCKS_VERSION, METHOD_NO_AUTH];
        }
        i = i + 1;
    }
    vec![SOCKS_VERSION, METHOD_NONE_ACCEPTABLE]
}

/// Reply to a request: `05 REP 00 ATYP ADDR PORT` with the given address.
pub fn build_socks_response(rep: u8, addr: SocketAddress) -> (r: Vec<u8>)
    ensures
        r@ == seq![SOCKS_VERSION, rep, 0u8] + encode_addr(ip_host(addr.ip), addr.port),
        r@.len() == match addr.ip {
            IpAddress::V4(_) => 10int,
            IpAddress::V6(_) => 22int,
        },
{
    let mut out: Vec<u8> = Vec::new();
    out.push(SOCKS_VERSION);
    out.push(rep);
    out.push(0);
    push_addr(&mut out, &TargetHost::Ip(addr.ip), addr.port);
    assert(out@ =~= seq![SOCKS_VERSION, rep, 0u8] + encode_addr(ip_host(addr.ip), addr.port));
    out
}

/// Reply to a request that could not be served: the request itself with its
/// second byte set to "host unreachable".
pub fn failure_reply(request: &[u8]) -> (r: Vec<u8>)
    requires
        request@.len() >= 2,
    ensures
        r@ == request@.update(1, REP_HOST_UNREACHABLE),
{
    let mut out = copy_range(request, 0, request.len());
    out.set(1, REP_HOST_UNREACHABLE);
    assert(out@ =~= request@.update(1, REP_HOST_UNREACHABLE));
    out
}

/// Wire form of a datagram: `00 00 00 ATYP ADDR PORT DATA`.
pub open spec fn encode_udp(h: HostView, port: u16, data: Seq<u8>) -> Seq<u8> {
    seq![0u8, 0u8, 0u8] + encode_addr(h, port) + data
}

/// Reads a datagram: its destination and its payload. Packets shorter than
/// ten bytes and fragments (third byte not zero) are refused.
pub open spec fn decode_udp(s: Seq<u8>) -> Option<(HostView, u16, Seq<u8>)> {
    if s.len() < 10 || s[2] != 0 {
        None
    } else {
        match decode_addr(s.subrange(3, s.len() as int)) {
            Some((h, p, n)) => Some((h, p, s.subrange(3 + n, s.len() as int))),
            None => None,
        }
    }
}

/// A datagram header decodes to what was encoded, and the payload comes out
/// unchanged, for every datagram long enough to be accepted.
pub proof fn lemma_udp_round_trip(h: HostView, port: u16, data: Seq<u8>)
    requires
        h.valid(),
        encode_udp(h, port, data).len() >= 10,
    ensures
        decode_udp(encode_udp(h, port, data)) == Some((h, port, data)),
{
    let s = encode_udp(h, port, data);
    let a = encode_addr(h, port);
    assert(s.subrange(3, s.len() as int) =~= a + data);
    lemma_addr_round_trip(h, port, data);
    assert(s.subrange(3 + a.len() as int, s.len() as int) =~= data);
}

/// Wraps `data` received from `addr` in a datagram header for the client.
pub fn build_socks_udp(addr: SocketAddress, data: &[u8]) -> (r: Vec<u8>)
    ensures
        r@ == encode_udp(ip_host(addr.ip), addr.port, data@),
{
    let mut out: Vec<u8> = Vec::new();
    out.push(0);
    out.push(0);
    out.push(0);
    push_addr(&mut out, &TargetHost::Ip(addr.ip), addr.port);
    push_all(&mut out, data);
    assert(out@ =~= encode_udp(ip_host(addr.ip), addr.port, data@));
    out
}

/// Reads a datagram from the client: its destination, its port and the
/// offset at which its payload starts.
pub fn decode_socks_udp(pkt: &[u8]) -> (r: Option<(TargetHost, u16, usize)>)
    ensures
        match decode_udp(pkt@) {
            Some((h, p, data)) => r matches Some((t, q, off)) && t@ == h && q == p && off
                <= pkt@.len() && pkt@.subrange(off as int, pkt@.len() as int) == data,
            None => r is None,
        },
{
    if pkt.len() < 10 || pkt[2] != 0 {
        return None;
    }
    match decode_addr_at(pkt, 3) {
        Some((h, p, n)) => Some((h, p, 3 + n)),
        None => None,
    }
}

} // verus!
