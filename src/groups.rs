use vstd::prelude::*;
use vstd::string::{StrSliceExecFns, StringSliceAdditionalSpecFns};
use crate::event::Event;
use crate::text::{decimal, push_all, push_digits};

verus! {

pub open spec fn is_digit(b: u8) -> bool {
    48 <= b <= 57
}

/// Value of a run of decimal digits.
pub open spec fn digits_value(s: Seq<u8>) -> nat
    decreases s.len(),
{
    if s.len() == 0 {
        0
    } else {
        digits_value(s.drop_last()) * 10 + (s.last() - 48) as nat
    }
}

/// A line without its trailing carriage returns and line feeds.
pub open spec fn strip_line_end(s: Seq<u8>) -> Seq<u8>
    decreases s.len(),
{
    if s.len() > 0 && (s.last() == 10 || s.last() == 13) {
        strip_line_end(s.drop_last())
    } else {
        s
    }
}

/// The group a status request names: one line of decimal digits whose value
/// fits in 32 bits.
pub open spec fn group_request(s: Seq<u8>) -> Option<u32> {
    let d = strip_line_end(s);
    if d.len() > 0 && (forall|i: int| 0 <= i < d.len() ==> is_digit(#[trigger] d[i]))
        && digits_value(d) <= u32::MAX {
        Some(digits_value(d) as u32)
    } else {
        None
    }
}

proof fn lemma_value_grows(s: Seq<u8>, i: int)
    requires
        0 <= i <= s.len(),
        forall|k: int| 0 <= k < s.len() ==> is_digit(#[trigger] s[k]),
    ensures
        digits_value(s.subrange(0, i)) <= digits_value(s),
    decreases s.len() - i,
{
    if i < s.len() {
        lemma_value_grows(s, i + 1);
        let t = s.subrange(0, i + 1);
        assert(t.drop_last() =~= s.subrange(0, i));
    } else {
        assert(s.subrange(0, i) =~= s);
    }
}

/// Reads the group named by a status request.
pub fn parse_group(line: &[u8]) -> (r: Option<u32>)
    ensures
        r == group_request(line@),
{
    let mut e: usize = line.len();
    assert(line@.subrange(0, e as int) =~= line@);
    while e > 0 && (line[e - 1] == 10 || line[e - 1] == 13)
        invariant
            e <= line@.len(),
            strip_line_end(line@) == strip_line_end(line@.subrange(0, e as int)),
        decreases e,
    {
        assert(line@.subrange(0, e as int).drop_last() =~= line@.subrange(0, e - 1));
        e = e - 1;
    }
    let ghost d = line@.subrange(0, e as int);
    assert(strip_line_end(d) == d);
    if e == 0 {
        return None;
    }
    let mut i: usize = 0;
    while i < e
        invariant
            e <= line@.len(),
            d == line@.subrange(0, e as int),
            strip_line_end(line@) == d,
            0 <= i <= e,
            forall|k: int| 0 <= k < i ==> is_digit(#[trigger] d[k]),
        decreases e - i,
    {
        if !(48 <= line[i] && line[i] <= 57) {
            assert(!is_digit(d[i as int]));
            return None;
        }
        i = i + 1;
    }
    let mut value: u64 = 0;
    let mut k: usize = 0;
    assert(d.subrange(0, 0) =~= Seq::<u8>::empty());
    while k < e
        invariant
            e <= line@.len(),
            d == line@.subrange(0, e as int),
            strip_line_end(line@) == d,
            0 <= k <= e,
            forall|m: int| 0 <= m < d.len() ==> is_digit(#[trigger] d[m]),
            value as nat == digits_value(d.subrange(0, k as int)),
            value <= u32::MAX,
        decreases e - k,
    {
        assert(is_digit(d[k as int]));
        let digit = (line[k] - 48) as u64;
        let next = value * 10 + digit;
        assert(d.subrange(0, k + 1).drop_last() =~= d.subrange(0, k as int));
        assert(d.subrange(0, k + 1).last() == line@[k as int]);
        if next > u32::MAX as u64 {
            proof {
                lemma_value_grows(d, k + 1);
            }
            return None;
        }
        value = next;
        k = k + 1;
    }
    assert(d.subrange(0, e as int) =~= d);
    Some(value as u32)
}

pub open spec fn reply_head() -> Seq<u8> {
    "{\"ul\":".spec_bytes()
}

pub open spec fn reply_middle() -> Seq<u8> {
    ",\"dl\":".spec_bytes()
}

/// The answer to a status request: `{"ul":<bytes>,"dl":<bytes>}`.
pub fn totals_reply(ul: u64, dl: u64) -> (r: Vec<u8>)
    ensures
        r@ == reply_head() + decimal(ul as nat) + reply_middle() + decimal(dl as nat) + seq![125u8],
{
    let mut out = "{\"ul\":".as_bytes_vec();
    push_digits(&mut out, ul, 10);
    let middle = ",\"dl\":".as_bytes_vec();
    push_all(&mut out, middle.as_slice());
    push_digits(&mut out, dl, 10);
    out.push(125);
    out
}

/// Addition that stops at the largest value.
pub open spec fn sat_add64(a: u64, b: u64) -> u64 {
    if a + b > u64::MAX {
        u64::MAX
    } else {
        (a + b) as u64
    }
}

fn sat_add64_exec(a: u64, b: u64) -> (r: u64)
    ensures
        r == sat_add64(a, b),
{
    if a > u64::MAX - b {
        u64::MAX
    } else {
        a + b
    }
}

/// Index of the row of group `g`, or -1.
pub open spec fn group_index(s: Seq<(u32, u64, u64)>, g: u32) -> int
    decreases s.len(),
{
    if s.len() == 0 {
        -1
    } else if s.last().0 == g {
        s.len() - 1
    } else {
        group_index(s.drop_last(), g)
    }
}

proof fn lemma_group_index(s: Seq<(u32, u64, u64)>, g: u32)
    ensures
        -1 <= group_index(s, g) < s.len(),
        group_index(s, g) >= 0 ==> s[group_index(s, g)].0 == g,
        group_index(s, g) == -1 ==> forall|i: int| 0 <= i < s.len() ==> (#[trigger] s[i]).0 != g,
    decreases s.len(),
{
    if s.len() > 0 && s.last().0 != g {
        lemma_group_index(s.drop_last(), g);
        assert forall|i: int| 0 <= i < s.len() - 1 implies s[i] == s.drop_last()[i] by {}
    }
}

/// Bytes relayed per group, upload and download.
pub struct GroupTotals {
    rows: Vec<(u32, u64, u64)>,
}

impl GroupTotals {
    /// One row per group: the group, bytes uploaded, bytes downloaded.
    pub closed spec fn rows(&self) -> Seq<(u32, u64, u64)> {
        self.rows@
    }

    pub fn new() -> (r: GroupTotals)
        ensures
            r.rows() == Seq::<(u32, u64, u64)>::empty(),
    {
        GroupTotals { rows: Vec::new() }
    }

    fn find(&self, group: u32) -> (r: Option<usize>)
        ensures
            match r {
                Some(i) => i as int == group_index(self.rows@, group),
                None => group_index(self.rows@, group) == -1,
            },
    {
        let mut i: usize = self.rows.len();
        proof {
            assert(self.rows@.subrange(0, i as int) =~= self.rows@);
        }
        while i > 0
            invariant
                i <= self.rows@.len(),
                group_index(self.rows@, group) == group_index(self.rows@.subrange(0, i as int), group),
            decreases i,
        {
            let ghost t = self.rows@.subrange(0, i as int);
            if self.rows[i - 1].0 == group {
                return Some(i - 1);
            }
            assert(t.drop_last() =~= self.rows@.subrange(0, i - 1));
            i = i - 1;
        }
        None
    }

    /// Bytes uploaded and downloaded by a group; `None` for a group never seen.
    pub fn lookup_group(&self, group: u32) -> (r: Option<(u64, u64)>)
        ensures
            ({
                let k = group_index(self.rows(), group);
                if k >= 0 {
                    r == Some((self.rows()[k].1, self.rows()[k].2))
                } else {
                    r is None
                }
            }),
    {
        proof {
            lemma_group_index(self.rows@, group);
        }
        match self.find(group) {
            Some(i) => Some((self.rows[i].1, self.rows[i].2)),
            None => None,
        }
    }

    /// Adds a progress event of a connection of `group` to its totals.
    pub fn record(&mut self, group: u32, event: &Event)
        ensures
            ({
                let s = old(self).rows();
                let k = group_index(s, group);
                let (up, down) = match *event {
                    Event::Upload(n) => (n as u64, 0u64),
                    Event::Download(n) => (0u64, n as u64),
                    _ => (0u64, 0u64),
                };
                if !(event is Upload || event is Download) {
                    final(self).rows() == s
                } else if k >= 0 {
                    final(self).rows() == s.update(
                        k,
                        (group, sat_add64(s[k].1, up), sat_add64(s[k].2, down)),
                    )
                } else {
                    final(self).rows() == s.push((group, up, down))
                }
            }),
    {
        let (up, down) = match event {
            Event::Upload(n) => (*n as u64, 0u64),
            Event::Download(n) => (0u64, *n as u64),
            _ => return ,
        };
        proof {
            lemma_group_index(self.rows@, group);
        }
        match self.find(group) {
            Some(i) => {
                let (g, u, d) = self.rows[i];
                let u2 = sat_add64_exec(u, up);
                let d2 = sat_add64_exec(d, down);
                self.rows.set(i, (g, u2, d2));
            },
            None => self.rows.push((group, up, down)),
        }
    }
}

} // verus!
