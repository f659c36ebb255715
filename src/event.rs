use vstd::prelude::*;
use crate::addr::{IpAddress, SocketAddress};

verus! {

/// The protocol a connection was recognised as.
#[derive(Clone, Copy, Debug, PartialEq, Eq, Structural)]
pub enum Protocol {
    Http,
    Https,
    Socks5Tcp,
    Socks5Udp,
}

impl Protocol {
    /// Fixed-width label of the protocol, as shown in the connection list.
    pub fn display(&self) -> (r: &'static str)
        ensures
            r@ == match self {
                Protocol::Http => "    http://"@,
                Protocol::Https => "   https://"@,
                Protocol::Socks5Tcp => "T socks5://"@,
                Protocol::Socks5Udp => "U socks5://"@,
            },
    {
        match self {
            Protocol::Http => "    http://",
            Protocol::Https => "   https://",
            Protocol::Socks5Tcp => "T socks5://",
            Protocol::Socks5Udp => "U socks5://",
        }
    }
}

/// Why a connection ended in error.
#[derive(Clone, Debug, PartialEq, Eq)]
pub enum Reason {
    /// The opening read held fewer than three bytes.
    TooShort,
    /// The opening bytes were neither SOCKS5 nor text.
    UnknownProtocol,
    /// An HTTP request named no target.
    NoHost,
    /// A SOCKS5 greeting did not offer "no authentication".
    InvalidAuth,
    /// A SOCKS5 request could not be decoded.
    BadRequest,
    /// A SOCKS5 request carried a command other than CONNECT or UDP ASSOCIATE.
    UnsupportedCommand(u8),
    /// The target's name did not resolve to any address.
    DnsFailed,
    /// Every candidate address failed.
    Unreachable,
    /// Every candidate address failed, the last one by timing out.
    Timeout,
    /// An I/O error, with its message.
    Io(String),
}

/// What happened on a connection, reported to the consumers.
#[derive(Clone, Debug, PartialEq, Eq)]
pub enum Event {
    /// A client connected from this address.
    Received(IpAddress),
    Recognized(Protocol),
    /// The target, as `host:port` text.
    Resolved(Vec<u8>),
    /// The bound local address and the upstream endpoint.
    Connected(IpAddress, SocketAddress),
    Done,
    Upload(usize),
    Download(usize),
    /// One candidate failed and the next is tried.
    Retry,
    Error(Reason),
    /// A wake-up with no connection behind it.
    Tick,
}

/// Position of an event in the life of a connection.
pub open spec fn stage(e: Event) -> int {
    match e {
        Event::Received(_) => 0,
        Event::Recognized(_) => 1,
        Event::Resolved(_) => 2,
        Event::Retry => 3,
        Event::Connected(_, _) => 4,
        Event::Upload(_) => 5,
        Event::Download(_) => 5,
        Event::Done => 6,
        Event::Error(_) => 6,
        Event::Tick => 7,
    }
}

/// Whether the event ends a connection.
pub open spec fn is_terminal(e: Event) -> bool {
    e is Done || e is Error
}

/// Stages that may occur more than once.
pub open spec fn repeatable(k: int) -> bool {
    k == 3 || k == 5
}

/// The events of one connection are in order: it starts with `Received`;
/// `Recognized`, `Resolved`, retries, `Connected`, byte counts and the end
/// follow in that order; each of them but retries and byte counts comes at
/// most once; there is no wake-up among them.
pub open spec fn valid_trace(s: Seq<Event>) -> bool {
    &&& s.len() > 0 ==> s[0] is Received
    &&& forall|i: int| 0 <= i < s.len() ==> stage(#[trigger] s[i]) < 7
    &&& forall|i: int, j: int|
        0 <= i < j < s.len() ==> stage(#[trigger] s[i]) < stage(#[trigger] s[j]) || (stage(s[i])
            == stage(s[j]) && repeatable(stage(s[i])))
}

/// A finished connection: a valid trace that ends with `Done` or `Error`.
pub open spec fn complete_trace(s: Seq<Event>) -> bool {
    valid_trace(s) && s.len() > 0 && is_terminal(s.last())
}

/// Every `Connected` event binds a local address of the upstream's family.
pub open spec fn families_match(s: Seq<Event>) -> bool {
    forall|i: int|
        0 <= i < s.len() ==> (#[trigger] s[i] matches Event::Connected(b, u)
            ==> b.spec_family() == u.ip.spec_family())
}

/// In a valid trace no event follows `Done` or `Error`.
pub proof fn lemma_terminal_is_last(s: Seq<Event>, i: int)
    requires
        valid_trace(s),
        0 <= i < s.len(),
        is_terminal(s[i]),
    ensures
        i == s.len() - 1,
{
    if i < s.len() - 1 {
        assert(stage(s[i]) < stage(s[s.len() - 1]) || stage(s[i]) == stage(s[s.len() - 1]));
        assert(stage(s[s.len() - 1]) < 7);
    }
}

/// A finished connection holds exactly one `Done` or `Error`, and it is last.
pub proof fn lemma_exactly_one_terminal(s: Seq<Event>)
    requires
        complete_trace(s),
    ensures
        forall|i: int| 0 <= i < s.len() ==> (is_terminal(#[trigger] s[i]) <==> i == s.len() - 1),
{
    assert forall|i: int| 0 <= i < s.len() implies (is_terminal(#[trigger] s[i]) <==> i == s.len()
        - 1) by {
        if is_terminal(s[i]) {
            lemma_terminal_is_last(s, i);
        }
    }
}

/// Appending an event of a later stage, or one more of a repeatable stage,
/// keeps a trace valid.
pub proof fn lemma_push_event(s: Seq<Event>, e: Event)
    requires
        valid_trace(s),
        stage(e) < 7,
        s.len() == 0 ==> e is Received,
        s.len() > 0 ==> stage(s.last()) < stage(e) || (stage(s.last()) == stage(e) && repeatable(
            stage(e),
        )),
    ensures
        valid_trace(s.push(e)),
{
    let t = s.push(e);
    assert forall|i: int, j: int| 0 <= i < j < t.len() implies stage(#[trigger] t[i]) < stage(
        #[trigger] t[j],
    ) || (stage(t[i]) == stage(t[j]) && repeatable(stage(t[i]))) by {
        if j == s.len() && i < s.len() - 1 {
            assert(stage(s[i]) < stage(s[s.len() - 1]) || (stage(s[i]) == stage(s[s.len() - 1])
                && repeatable(stage(s[i]))));
        }
    }
    assert forall|i: int| 0 <= i < t.len() implies stage(#[trigger] t[i]) < 7 by {
        if i < s.len() {
            assert(stage(s[i]) < 7);
        }
    }
}

/// Byte counts reported by the relay after `Connected` (and any byte count
/// reported with it), in any number and interleaving, followed by the end of
/// the connection, keep its events in order.
pub proof fn lemma_progress_fits(pre: Seq<Event>, progress: Seq<Event>, end: Event)
    requires
        valid_trace(pre),
        pre.len() > 0,
        pre.last() is Connected || pre.last() is Upload || pre.last() is Download,
        forall|i: int| 0 <= i < progress.len() ==> (#[trigger] progress[i] is Upload || progress[i] is Download),
        is_terminal(end),
    ensures
        valid_trace(pre + progress + seq![end]),
{
    let t = pre + progress + seq![end];
    let a = pre.len() as int;
    let b = a + progress.len();
    assert forall|i: int| 0 <= i < t.len() implies stage(#[trigger] t[i]) < 7 && (i < a ==> stage(
        t[i],
    ) <= 5) && (a <= i < b ==> stage(t[i]) == 5) && (i == b ==> stage(t[i]) == 6) by {
        if i < a {
            assert(t[i] == pre[i]);
            assert(stage(pre[i]) < 7);
            if i < a - 1 {
                assert(stage(pre[i]) < stage(pre[a - 1]) || stage(pre[i]) == stage(pre[a - 1]));
            }
        } else if i < b {
            assert(t[i] == progress[i - a]);
        } else {
            assert(t[i] == end);
        }
    }
    assert forall|i: int, j: int| 0 <= i < j < t.len() implies stage(#[trigger] t[i]) < stage(
        #[trigger] t[j],
    ) || (stage(t[i]) == stage(t[j]) && repeatable(stage(t[i]))) by {
        if j < a {
            assert(t[i] == pre[i] && t[j] == pre[j]);
        }
    }
    assert(t[0] == pre[0]);
}

/// Hands out connection ids: strictly increasing and never zero, which is
/// kept for wake-ups.
pub struct IdCounter {
    last: usize,
}

impl IdCounter {
    /// The id handed out last, zero before the first.
    pub closed spec fn last(&self) -> nat {
        self.last as nat
    }

    pub fn new() -> (r: IdCounter)
        ensures
            r.last() == 0,
    {
        IdCounter { last: 0 }
    }

    /// The next id; `None` once every id has been handed out.
    pub fn next_id(&mut self) -> (r: Option<usize>)
        ensures
            old(self).last() < usize::MAX ==> r == Some((old(self).last() + 1) as usize)
                && final(self).last() == old(self).last() + 1,
            old(self).last() == usize::MAX ==> r is None && final(self).last() == old(self).last(),
    {
        if self.last == usize::MAX {
            None
        } else {
            self.last = self.last + 1;
            Some(self.last)
        }
    }
}

} // verus!
