use vstd::prelude::*;
use crate::addr::{Family, SocketAddress};
use crate::pool::IpPool;

verus! {

/// Whether the pool holds a source address of the candidate's family.
pub open spec fn family_in_pool(a: SocketAddress, have_v4: bool, have_v6: bool) -> bool {
    match a.ip.spec_family() {
        Family::V4 => have_v4,
        Family::V6 => have_v6,
    }
}

/// Sort key of a candidate: families present in the pool first, then the
/// preferred family first.
pub open spec fn candidate_rank(a: SocketAddress, prefer_v6: bool, have_v4: bool, have_v6: bool) -> int {
    (if family_in_pool(a, have_v4, have_v6) {
        0int
    } else {
        2int
    }) + (if (a.ip.spec_family() == Family::V6) == prefer_v6 {
        0int
    } else {
        1int
    })
}

pub open spec fn with_rank(s: Seq<SocketAddress>, prefer_v6: bool, have_v4: bool, have_v6: bool, k: int) -> Seq<SocketAddress> {
    s.filter(|a: SocketAddress| candidate_rank(a, prefer_v6, have_v4, have_v6) == k)
}

/// Candidates in the order they are tried: as given when there is no family
/// preference, else stably sorted by `candidate_rank`.
pub open spec fn ordered_candidates(s: Seq<SocketAddress>, ipv6_first: Option<bool>, have_v4: bool, have_v6: bool) -> Seq<SocketAddress> {
    match ipv6_first {
        None => s,
        Some(p) => with_rank(s, p, have_v4, have_v6, 0) + with_rank(s, p, have_v4, have_v6, 1)
            + with_rank(s, p, have_v4, have_v6, 2) + with_rank(s, p, have_v4, have_v6, 3),
    }
}

/// Ordering keeps at least one candidate when there is one.
proof fn lemma_ordered_nonempty(s: Seq<SocketAddress>, ipv6_first: Option<bool>, have_v4: bool, have_v6: bool)
    requires
        s.len() > 0,
    ensures
        ordered_candidates(s, ipv6_first, have_v4, have_v6).len() > 0,
{
    if let Some(p) = ipv6_first {
        let k = candidate_rank(s[0], p, have_v4, have_v6);
        let pred = |a: SocketAddress| candidate_rank(a, p, have_v4, have_v6) == k;
        s.lemma_filter_contains(pred, 0);
        assert(with_rank(s, p, have_v4, have_v6, k).len() > 0);
        assert(0 <= k <= 3);
    }
}

fn rank_of(a: &SocketAddress, prefer_v6: bool, have_v4: bool, have_v6: bool) -> (r: u8)
    ensures
        r as int == candidate_rank(*a, prefer_v6, have_v4, have_v6),
{
    let f = a.ip.family();
    let present = match f {
        Family::V4 => have_v4,
        Family::V6 => have_v6,
    };
    let is_v6 = match f {
        Family::V4 => false,
        Family::V6 => true,
    };
    (if present {
        0u8
    } else {
        2u8
    }) + (if is_v6 == prefer_v6 {
        0u8
    } else {
        1u8
    })
}

fn push_rank(out: &mut Vec<SocketAddress>, s: &Vec<SocketAddress>, prefer_v6: bool, have_v4: bool, have_v6: bool, k: u8)
    ensures
        final(out)@ == old(out)@ + with_rank(s@, prefer_v6, have_v4, have_v6, k as int),
{
    let ghost p = |a: SocketAddress| candidate_rank(a, prefer_v6, have_v4, have_v6) == k as int;
    let mut i: usize = 0;
    while i < s.len()
        invariant
            0 <= i <= s@.len(),
            out@ == old(out)@ + s@.subrange(0, i as int).filter(p),
            forall|x: SocketAddress| #[trigger] p(x) == (candidate_rank(x, prefer_v6, have_v4, have_v6) == k as int),
        decreases s@.len() - i,
    {
        let a = s[i];
        let ghost before = out@;
        let keep = rank_of(&a, prefer_v6, have_v4, have_v6) == k;
        if keep {
            out.push(a);
        }
        proof {
            reveal(Seq::filter);
            let t = s@.subrange(0, i + 1);
            assert(t.drop_last() =~= s@.subrange(0, i as int));
            assert(t.last() == a);
            assert(keep == p(a));
            if p(a) {
                assert(t.filter(p) == s@.subrange(0, i as int).filter(p).push(a));
                assert(out@ =~= old(out)@ + t.filter(p));
            } else {
                assert(t.filter(p) == s@.subrange(0, i as int).filter(p));
                assert(out@ =~= old(out)@ + t.filter(p));
            }
        }
        i = i + 1;
    }
    assert(s@.subrange(0, s@.len() as int) =~= s@);
}

/// Orders the resolved candidates for dialing; `None` when there are none.
pub fn rank_candidates(addrs: Vec<SocketAddress>, ipv6_first: Option<bool>, pool: &IpPool) -> (r: Option<Vec<SocketAddress>>)
    requires
        pool.wf(),
    ensures
        addrs@.len() == 0 ==> r is None,
        addrs@.len() > 0 ==> (r matches Some(v) && v@.len() > 0 && v@ == ordered_candidates(
            addrs@,
            ipv6_first,
            pool.v4_items().len() > 0,
            pool.v6_items().len() > 0,
        )),
{
    if addrs.len() == 0 {
        return None;
    }
    proof {
        lemma_ordered_nonempty(addrs@, ipv6_first, pool.v4_items().len() > 0, pool.v6_items().len() > 0);
    }
    match ipv6_first {
        None => Some(addrs),
        Some(p) => {
            let have_v4 = pool.have_v4();
            let have_v6 = pool.have_v6();
            let mut out: Vec<SocketAddress> = Vec::new();
            push_rank(&mut out, &addrs, p, have_v4, have_v6, 0);
            push_rank(&mut out, &addrs, p, have_v4, have_v6, 1);
            push_rank(&mut out, &addrs, p, have_v4, have_v6, 2);
            push_rank(&mut out, &addrs, p, have_v4, have_v6, 3);
            assert(out@ =~= ordered_candidates(addrs@, ipv6_first, have_v4, have_v6));
            Some(out)
        },
    }
}

} // verus!
