use vstd::prelude::*;
use crate::addr::{IpAddress, SocketAddress};
use crate::event::{Event, Protocol, Reason};

verus! {

/// How long a finished connection stays listed, in milliseconds.
pub const KEEP_AFTER_DONE_MS: u64 = 2000;

/// State of a listed connection; finished states hold the time they began.
#[derive(Clone, Copy, Debug, PartialEq, Eq, Structural)]
pub enum State {
    Waiting,
    Connected,
    Done(u64),
    Error(u64),
}

/// What the connection list shows of one connection.
#[derive(Clone, Debug, PartialEq, Eq)]
pub struct Content {
    /// When the connection was received, in milliseconds.
    pub time_start: u64,
    /// The client's address.
    pub local: IpAddress,
    pub protocol: Option<Protocol>,
    /// The local address bound for the upstream.
    pub bind: Option<IpAddress>,
    pub remote: Option<SocketAddress>,
    /// The target, as `host:port` text.
    pub uri: Option<Vec<u8>>,
    pub state: State,
    pub upload: usize,
    pub download: usize,
    pub retries: usize,
    pub error: Option<Reason>,
}

pub open spec fn fresh(local: IpAddress, now: u64) -> Content {
    Content {
        time_start: now,
        local,
        protocol: None,
        bind: None,
        remote: None,
        uri: None,
        state: State::Waiting,
        upload: 0,
        download: 0,
        retries: 0,
        error: None,
    }
}

impl Content {
    /// A connection just received from `local` at time `now`.
    pub fn new(local: IpAddress, now: u64) -> (r: Content)
        ensures
            r == fresh(local, now),
    {
        Content {
            time_start: now,
            local,
            protocol: None,
            bind: None,
            remote: None,
            uri: None,
            state: State::Waiting,
            upload: 0,
            download: 0,
            retries: 0,
            error: None,
        }
    }
}

/// Addition that stops at the largest value.
pub open spec fn sat_add(a: usize, b: usize) -> usize {
    if a + b > usize::MAX {
        usize::MAX
    } else {
        (a + b) as usize
    }
}

/// A listed connection after an event about it at time `now`.
pub open spec fn applied(c: Content, e: Event, now: u64) -> Content {
    match e {
        Event::Recognized(p) => Content { protocol: Some(p), ..c },
        Event::Resolved(u) => Content { uri: Some(u), ..c },
        Event::Connected(b, r) => Content { bind: Some(b), remote: Some(r), state: State::Connected, ..c },
        Event::Done => Content { state: State::Done(now), ..c },
        Event::Upload(n) => Content { upload: sat_add(c.upload, n), ..c },
        Event::Download(n) => Content { download: sat_add(c.download, n), ..c },
        Event::Retry => Content { retries: sat_add(c.retries, 1), ..c },
        Event::Error(r) => Content { state: State::Error(now), error: Some(r), ..c },
        _ => c,
    }
}

/// Whether a finished connection has been listed long enough at `now`.
pub open spec fn expired(c: Content, now: u64) -> bool {
    match c.state {
        State::Done(t) => now as int - t as int >= KEEP_AFTER_DONE_MS as int,
        State::Error(t) => now as int - t as int >= KEEP_AFTER_DONE_MS as int,
        _ => false,
    }
}

/// Index of the first row whose id is not below `id`.
pub open spec fn lower_bound(s: Seq<(usize, Content)>, id: usize) -> nat
    decreases s.len(),
{
    if s.len() == 0 || s[0].0 >= id {
        0
    } else {
        1 + lower_bound(s.drop_first(), id)
    }
}

pub open spec fn ids_increasing(s: Seq<(usize, Content)>) -> bool {
    forall|i: int, j: int| 0 <= i < j < s.len() ==> #[trigger] s[i].0 < #[trigger] s[j].0
}

fn sat_add_exec(a: usize, b: usize) -> (r: usize)
    ensures
        r == sat_add(a, b),
{
    if a > usize::MAX - b {
        usize::MAX
    } else {
        a + b
    }
}

fn apply(c: Content, e: Event, now: u64) -> (r: Content)
    ensures
        r == applied(c, e, now),
{
    match e {
        Event::Recognized(p) => Content { protocol: Some(p), ..c },
        Event::Resolved(u) => Content { uri: Some(u), ..c },
        Event::Connected(b, r) => Content { bind: Some(b), remote: Some(r), state: State::Connected, ..c },
        Event::Done => Content { state: State::Done(now), ..c },
        Event::Upload(n) => {
            let upload = sat_add_exec(c.upload, n);
            Content { upload, ..c }
        },
        Event::Download(n) => {
            let download = sat_add_exec(c.download, n);
            Content { download, ..c }
        },
        Event::Retry => {
            let retries = sat_add_exec(c.retries, 1);
            Content { retries, ..c }
        },
        Event::Error(r) => Content { state: State::Error(now), error: Some(r), ..c },
        _ => c,
    }
}

fn is_expired(c: &Content, now: u64) -> (r: bool)
    ensures
        r == expired(*c, now),
{
    match c.state {
        State::Done(t) => now >= t && now - t >= KEEP_AFTER_DONE_MS,
        State::Error(t) => now >= t && now - t >= KEEP_AFTER_DONE_MS,
        _ => false,
    }
}

/// The connections a consumer lists, ordered by id.
pub struct Summary {
    rows: Vec<(usize, Content)>,
}

impl Summary {
    pub closed spec fn rows(&self) -> Seq<(usize, Content)> {
        self.rows@
    }

    pub closed spec fn wf(&self) -> bool {
        ids_increasing(self.rows@)
    }

    pub fn new() -> (r: Summary)
        ensures
            r.wf(),
            r.rows() == Seq::<(usize, Content)>::empty(),
    {
        Summary { rows: Vec::new() }
    }

    /// The listed connections, ordered by id.
    pub fn list(&self) -> (r: &Vec<(usize, Content)>)
        ensures
            r@ == self.rows(),
    {
        &self.rows
    }

    fn find(&self, id: usize) -> (r: usize)
        ensures
            r == lower_bound(self.rows@, id),
            r <= self.rows@.len(),
    {
        let ghost s = self.rows@;
        let mut i: usize = 0;
        assert(s.skip(0) =~= s);
        while i < self.rows.len() && self.rows[i].0 < id
            invariant
                s == self.rows@,
                0 <= i <= s.len(),
                lower_bound(s, id) == i + lower_bound(s.skip(i as int), id),
            decreases s.len() - i,
        {
            assert(s.skip(i as int).drop_first() =~= s.skip(i + 1));
            i = i + 1;
        }
        i
    }

    /// Takes an event about connection `id` at time `now`. A `Received`
    /// lists the connection; other events update its row; a wake-up
    /// (`id` 0) drops connections finished long enough ago.
    pub fn update(&mut self, id: usize, event: Event, now: u64)
        requires
            old(self).wf(),
        ensures
            final(self).wf(),
            id == 0 ==> final(self).rows() == old(self).rows().filter(
                |r: (usize, Content)| !expired(r.1, now),
            ),
            id != 0 ==> ({
                let s = old(self).rows();
                let p = lower_bound(s, id) as int;
                let found = p < s.len() && s[p].0 == id;
                match event {
                    Event::Received(ip) => if found {
                        final(self).rows() == s.update(p, (id, fresh(ip, now)))
                    } else {
                        final(self).rows() == s.insert(p, (id, fresh(ip, now)))
                    },
                    _ => if found {
                        final(self).rows() == s.update(p, (id, applied(s[p].1, event, now)))
                    } else {
                        final(self).rows() == s
                    },
                }
            }),
    {
        if id == 0 {
            self.prune(now);
            return ;
        }
        let p = self.find(id);
        let ghost s = self.rows@;
        proof {
            lemma_lower_bound(s, id);
        }
        let found = p < self.rows.len() && self.rows[p].0 == id;
        match event {
            Event::Received(ip) => {
                let c = Content::new(ip, now);
                if found {
                    let _ = self.rows.remove(p);
                    self.rows.insert(p, (id, c));
                    assert(self.rows@ =~= s.update(p as int, (id, fresh(ip, now))));
                } else {
                    self.rows.insert(p, (id, c));
                }
            },
            _ => {
                if found {
                    let (k, c) = self.rows.remove(p);
                    let c2 = apply(c, event, now);
                    self.rows.insert(p, (k, c2));
                    assert(self.rows@ =~= s.update(p as int, (id, applied(s[p as int].1, event, now))));
                }
            },
        }
        assert(ids_increasing(self.rows@)) by {
            assert forall|i: int, j: int| 0 <= i < j < self.rows@.len() implies #[trigger] self.rows@[i].0
                < #[trigger] self.rows@[j].0 by {
                if found {
                    assert(self.rows@[i].0 == s[i].0);
                    assert(self.rows@[j].0 == s[j].0);
                } else if event is Received {
                    if j < p {
                    } else if i > p {
                        assert(self.rows@[i].0 == s[i - 1].0);
                        assert(self.rows@[j].0 == s[j - 1].0);
                    } else if i == p {
                        assert(self.rows@[j].0 == s[j - 1].0);
                    } else {
                        assert(self.rows@[i].0 == s[i].0);
                    }
                }
            }
        }
    }

    fn prune(&mut self, now: u64)
        requires
            old(self).wf(),
        ensures
            final(self).wf(),
            final(self).rows() == old(self).rows().filter(|r: (usize, Content)| !expired(r.1, now)),
    {
        let ghost s = self.rows@;
        let ghost keep = |r: (usize, Content)| !expired(r.1, now);
        let mut i: usize = 0;
        let ghost mut j: int = 0;
        while i < self.rows.len()
            invariant
                0 <= i <= self.rows@.len(),
                0 <= j <= s.len(),
                forall|r: (usize, Content)| #[trigger] keep(r) == !expired(r.1, now),
                self.rows@.subrange(0, i as int) == s.subrange(0, j).filter(keep),
                self.rows@.subrange(i as int, self.rows@.len() as int) == s.subrange(j, s.len() as int),
                ids_increasing(self.rows@),
            decreases self.rows@.len() - i,
        {
            let ghost before = self.rows@;
            let ghost rest = self.rows@.subrange(i as int, self.rows@.len() as int);
            let ghost tail = s.subrange(j, s.len() as int);
            proof {
                reveal(Seq::filter);
                assert(rest.len() == s.subrange(j, s.len() as int).len());
                assert(rest[0] == s.subrange(j, s.len() as int)[0]);
                assert(s.subrange(0, j + 1).drop_last() =~= s.subrange(0, j));
                assert(before[i as int] == s[j]);
                assert(s.subrange(0, j + 1).last() == s[j]);
            }
            if is_expired(&self.rows[i].1, now) {
                let _ = self.rows.remove(i);
                proof {
                    assert(self.rows@.subrange(0, i as int) =~= before.subrange(0, i as int));
                    let a = self.rows@.subrange(i as int, self.rows@.len() as int);
                    let b = s.subrange(j + 1, s.len() as int);
                    assert(a.len() == b.len());
                    assert forall|k: int| 0 <= k < a.len() implies #[trigger] a[k] == b[k] by {
                        assert(rest[k + 1] == tail[k + 1]);
                    }
                    assert(self.rows@.subrange(i as int, self.rows@.len() as int) =~= s.subrange(
                        j + 1,
                        s.len() as int,
                    ));
                    assert forall|a: int, b: int| 0 <= a < b < self.rows@.len() implies #[trigger] self.rows@[a].0
                        < #[trigger] self.rows@[b].0 by {
                        let a2 = if a < i { a } else { a + 1 };
                        let b2 = if b < i { b } else { b + 1 };
                        assert(self.rows@[a] == before[a2]);
                        assert(self.rows@[b] == before[b2]);
                    }
                    j = j + 1;
                }
            } else {
                proof {
                    assert(self.rows@.subrange(0, i + 1) =~= self.rows@.subrange(0, i as int).push(s[j]));
                    let a = self.rows@.subrange(i + 1, self.rows@.len() as int);
                    let b = s.subrange(j + 1, s.len() as int);
                    assert(a.len() == b.len());
                    assert forall|k: int| 0 <= k < a.len() implies #[trigger] a[k] == b[k] by {
                        assert(rest[k + 1] == tail[k + 1]);
                    }
                    assert(self.rows@.subrange(i + 1, self.rows@.len() as int) =~= s.subrange(
                        j + 1,
                        s.len() as int,
                    ));
                    j = j + 1;
                }
                i = i + 1;
            }
        }
        assert(s.subrange(j, s.len() as int).len() == 0);
        assert(j == s.len());
        assert(s.subrange(0, s.len() as int) =~= s);
        assert(self.rows@.subrange(0, i as int) =~= self.rows@);
    }
}

proof fn lemma_lower_bound(s: Seq<(usize, Content)>, id: usize)
    ensures
        lower_bound(s, id) <= s.len(),
        forall|k: int| 0 <= k < lower_bound(s, id) ==> (#[trigger] s[k]).0 < id,
        lower_bound(s, id) < s.len() ==> s[lower_bound(s, id) as int].0 >= id,
    decreases s.len(),
{
    if s.len() > 0 && s[0].0 < id {
        lemma_lower_bound(s.drop_first(), id);
        assert forall|k: int| 0 <= k < lower_bound(s, id) implies (#[trigger] s[k]).0 < id by {
            if k > 0 {
                assert(s[k] == s.drop_first()[k - 1]);
            }
        }
    }
}

} // verus!
