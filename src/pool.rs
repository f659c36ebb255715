use vstd::prelude::*;
use crate::addr::{Family, IpAddress};

verus! {

/// A cyclic pool of items with a cursor; an empty pool hands out its default.
pub struct Pool<T> {
    default: T,
    pool: Vec<T>,
    index: usize,
}

impl<T: Copy> Pool<T> {
    /// The items, in the order they are handed out.
    pub closed spec fn items(&self) -> Seq<T> {
        self.pool@
    }

    /// Index of the item handed out next.
    pub closed spec fn cursor(&self) -> nat {
        self.index as nat
    }

    /// The item handed out by an empty pool.
    pub closed spec fn default_item(&self) -> T {
        self.default
    }

    pub closed spec fn wf(&self) -> bool {
        if self.pool@.len() == 0 {
            self.index == 0
        } else {
            self.index < self.pool@.len()
        }
    }

    /// A pool over `pool`, starting at its first item.
    pub fn new(pool: Vec<T>, default: T) -> (r: Self)
        ensures
            r.wf(),
            r.items() == pool@,
            r.cursor() == 0,
            r.default_item() == default,
    {
        Pool { default, pool, index: 0 }
    }

    /// Whether the pool holds no item.
    pub fn is_empty(&self) -> (r: bool)
        ensures
            r == (self.items().len() == 0),
    {
        self.pool.len() == 0
    }

    /// The item under the cursor, which then moves on cyclically; the
    /// default when the pool is empty.
    pub fn next(&mut self) -> (r: T)
        requires
            old(self).wf(),
        ensures
            final(self).wf(),
            final(self).items() == old(self).items(),
            final(self).default_item() == old(self).default_item(),
            old(self).items().len() == 0 ==> r == old(self).default_item() && final(self).cursor()
                == old(self).cursor(),
            old(self).items().len() > 0 ==> r == old(self).items()[old(self).cursor() as int]
                && final(self).cursor() == (old(self).cursor() + 1) % old(self).items().len(),
    {
        if self.pool.len() == 0 {
            return self.default;
        }
        let item = self.pool[self.index];
        let n = self.pool.len();
        if self.index + 1 >= n {
            assert((self.index + 1) as int % n as int == 0) by (nonlinear_arith)
                requires
                    self.index + 1 == n,
                    n > 0,
            ;
            self.index = 0;
        } else {
            assert((self.index + 1) as int % n as int == self.index + 1) by (nonlinear_arith)
                requires
                    self.index + 1 < n,
            ;
            self.index = self.index + 1;
        }
        item
    }
}

pub open spec fn is_v4(ip: IpAddress) -> bool {
    ip.spec_family() == Family::V4
}

pub open spec fn is_v6(ip: IpAddress) -> bool {
    ip.spec_family() == Family::V6
}

/// `r` is the source address of family `f` that `after` handed out, starting
/// from `before`: the pool's next address of that family, whose cursor moves
/// on, or the unspecified address when the pool has none of that family.
/// The other family's cursor does not move.
pub open spec fn next_source(before: IpPool, after: IpPool, f: Family, r: IpAddress) -> bool {
    &&& after.wf()
    &&& r.spec_family() == f
    &&& after.v4_items() == before.v4_items()
    &&& after.v6_items() == before.v6_items()
    &&& match f {
        Family::V4 => after.v6_cursor() == before.v6_cursor() && if before.v4_items().len() == 0 {
            r.is_unspecified() && after.v4_cursor() == before.v4_cursor()
        } else {
            r == before.v4_items()[before.v4_cursor() as int] && after.v4_cursor() == (
            before.v4_cursor() + 1) % before.v4_items().len()
        },
        Family::V6 => after.v4_cursor() == before.v4_cursor() && if before.v6_items().len() == 0 {
            r.is_unspecified() && after.v6_cursor() == before.v6_cursor()
        } else {
            r == before.v6_items()[before.v6_cursor() as int] && after.v6_cursor() == (
            before.v6_cursor() + 1) % before.v6_items().len()
        },
    }
}

/// Source addresses for outbound connections, one cyclic pool per family.
pub struct IpPool {
    pool_v4: Pool<IpAddress>,
    pool_v6: Pool<IpAddress>,
    have_v4: bool,
    have_v6: bool,
}

impl IpPool {
    /// The IPv4 addresses, in the order they are handed out.
    pub closed spec fn v4_items(&self) -> Seq<IpAddress> {
        self.pool_v4.items()
    }

    /// The IPv6 addresses, in the order they are handed out.
    pub closed spec fn v6_items(&self) -> Seq<IpAddress> {
        self.pool_v6.items()
    }

    pub closed spec fn v4_cursor(&self) -> nat {
        self.pool_v4.cursor()
    }

    pub closed spec fn v6_cursor(&self) -> nat {
        self.pool_v6.cursor()
    }

    pub closed spec fn wf(&self) -> bool {
        &&& self.pool_v4.wf()
        &&& self.pool_v6.wf()
        &&& forall|i: int| 0 <= i < self.v4_items().len() ==> is_v4(#[trigger] self.v4_items()[i])
        &&& forall|i: int| 0 <= i < self.v6_items().len() ==> is_v6(#[trigger] self.v6_items()[i])
        &&& is_v4(self.pool_v4.default_item()) && self.pool_v4.default_item().is_unspecified()
        &&& is_v6(self.pool_v6.default_item()) && self.pool_v6.default_item().is_unspecified()
        &&& self.have_v4 == (self.v4_items().len() > 0)
        &&& self.have_v6 == (self.v6_items().len() > 0)
    }

    /// Splits `pool` by family, keeping the order of each.
    pub fn new(pool: Vec<IpAddress>) -> (r: Self)
        ensures
            r.wf(),
            r.v4_items() == pool@.filter(|ip: IpAddress| is_v4(ip)),
            r.v6_items() == pool@.filter(|ip: IpAddress| is_v6(ip)),
            r.v4_cursor() == 0,
            r.v6_cursor() == 0,
    {
        let mut v4: Vec<IpAddress> = Vec::new();
        let mut v6: Vec<IpAddress> = Vec::new();
        let mut i: usize = 0;
        while i < pool.len()
            invariant
                0 <= i <= pool@.len(),
                v4@ == pool@.subrange(0, i as int).filter(|ip: IpAddress| is_v4(ip)),
                v6@ == pool@.subrange(0, i as int).filter(|ip: IpAddress| is_v6(ip)),
            decreases pool@.len() - i,
        {
            let ip = pool[i];
            proof {
                reveal(Seq::filter);
                assert(pool@.subrange(0, i + 1).drop_last() =~= pool@.subrange(0, i as int));
            }
            match ip {
                IpAddress::V4(_) => v4.push(ip),
                IpAddress::V6(_) => v6.push(ip),
            }
            i = i + 1;
        }
        assert(pool@.subrange(0, pool@.len() as int) =~= pool@);
        proof {
            let p4 = |ip: IpAddress| is_v4(ip);
            let p6 = |ip: IpAddress| is_v6(ip);
            assert forall|k: int| 0 <= k < v4@.len() implies is_v4(#[trigger] v4@[k]) by {
                pool@.lemma_filter_pred(p4, k);
            }
            assert forall|k: int| 0 <= k < v6@.len() implies is_v6(#[trigger] v6@[k]) by {
                pool@.lemma_filter_pred(p6, k);
            }
        }
        let have_v4 = v4.len() > 0;
        let have_v6 = v6.len() > 0;
        IpPool {
            pool_v4: Pool::new(v4, IpAddress::unspecified(Family::V4)),
            pool_v6: Pool::new(v6, IpAddress::unspecified(Family::V6)),
            have_v4,
            have_v6,
        }
    }

    /// Whether the pool holds an IPv4 address.
    pub fn have_v4(&self) -> (r: bool)
        requires
            self.wf(),
        ensures
            r == (self.v4_items().len() > 0),
    {
        self.have_v4
    }

    /// Whether the pool holds an IPv6 address.
    pub fn have_v6(&self) -> (r: bool)
        requires
            self.wf(),
        ensures
            r == (self.v6_items().len() > 0),
    {
        self.have_v6
    }

    /// The next IPv4 source address, or `0.0.0.0` when there is none.
    pub fn next_v4(&mut self) -> (r: IpAddress)
        requires
            old(self).wf(),
        ensures
            final(self).wf(),
            is_v4(r),
            final(self).v4_items() == old(self).v4_items(),
            final(self).v6_items() == old(self).v6_items(),
            final(self).v6_cursor() == old(self).v6_cursor(),
            old(self).v4_items().len() == 0 ==> r.is_unspecified(),
            old(self).v4_items().len() > 0 ==> r == old(self).v4_items()[old(self).v4_cursor() as int]
                && final(self).v4_cursor() == (old(self).v4_cursor() + 1) % old(
                self,
            ).v4_items().len(),
    {
        self.pool_v4.next()
    }

    /// The next IPv6 source address, or `::` when there is none.
    pub fn next_v6(&mut self) -> (r: IpAddress)
        requires
            old(self).wf(),
        ensures
            final(self).wf(),
            is_v6(r),
            final(self).v4_items() == old(self).v4_items(),
            final(self).v6_items() == old(self).v6_items(),
            final(self).v4_cursor() == old(self).v4_cursor(),
            old(self).v6_items().len() == 0 ==> r.is_unspecified(),
            old(self).v6_items().len() > 0 ==> r == old(self).v6_items()[old(self).v6_cursor() as int]
                && final(self).v6_cursor() == (old(self).v6_cursor() + 1) % old(
                self,
            ).v6_items().len(),
    {
        self.pool_v6.next()
    }

    /// The next source address of family `f`.
    pub fn next_for(&mut self, f: Family) -> (r: IpAddress)
        requires
            old(self).wf(),
        ensures
            next_source(*old(self), *final(self), f, r),
    {
        match f {
            Family::V4 => self.next_v4(),
            Family::V6 => self.next_v6(),
        }
    }
}

} // verus!
