use vstd::prelude::*;

verus! {

/// ASCII whitespace: space, tab, line feed, form feed, carriage return.
pub open spec fn is_ws(b: u8) -> bool {
    b == 32 || b == 9 || b == 10 || b == 12 || b == 13
}

/// Length of the run of non-whitespace bytes that starts `s`.
pub open spec fn token_len(s: Seq<u8>) -> nat
    decreases s.len(),
{
    if s.len() == 0 || is_ws(s[0]) {
        0
    } else {
        1 + token_len(s.drop_first())
    }
}

/// The maximal runs of non-whitespace bytes of `s`, in order.
pub open spec fn tokens(s: Seq<u8>) -> Seq<Seq<u8>>
    decreases s.len()
    via tokens_decreases
{
    if s.len() == 0 {
        seq![]
    } else if is_ws(s[0]) {
        tokens(s.drop_first())
    } else {
        let k = token_len(s);
        seq![s.take(k as int)] + tokens(s.skip(k as int))
    }
}

proof fn lemma_token_len_bound(s: Seq<u8>)
    ensures
        token_len(s) <= s.len(),
        s.len() > 0 && !is_ws(s[0]) ==> token_len(s) >= 1,
    decreases s.len(),
{
    if s.len() > 0 && !is_ws(s[0]) {
        lemma_token_len_bound(s.drop_first());
    }
}

#[via_fn]
proof fn tokens_decreases(s: Seq<u8>) {
    lemma_token_len_bound(s);
}

/// ASCII lower case of a byte.
pub open spec fn lower(b: u8) -> u8 {
    if 65 <= b <= 90 {
        (b + 32) as u8
    } else {
        b
    }
}

/// Whether `t` equals the lower-case word `w`, ignoring ASCII case.
pub open spec fn eq_ignore_case(t: Seq<u8>, w: Seq<u8>) -> bool {
    t.len() == w.len() && forall|i: int| 0 <= i < t.len() ==> lower(t[i]) == w[i]
}

/// `host:`
pub open spec fn host_key() -> Seq<u8> {
    seq![104u8, 111u8, 115u8, 116u8, 58u8]
}

/// `connect`
pub open spec fn connect_word() -> Seq<u8> {
    seq![99u8, 111u8, 110u8, 110u8, 101u8, 99u8, 116u8]
}

/// The token after the first `Host:` found at index `k` or later, if that
/// `Host:` has a token after it.
pub open spec fn host_value(t: Seq<Seq<u8>>, k: int) -> Option<Seq<u8>>
    decreases t.len() - k,
{
    if k < 0 || k >= t.len() {
        None
    } else if eq_ignore_case(t[k], host_key()) {
        if k + 1 < t.len() {
            Some(t[k + 1])
        } else {
            None
        }
    } else {
        host_value(t, k + 1)
    }
}

/// The target named by the tokens of a request: the value of the first
/// `Host:` header after the request line's first two tokens, else the
/// request-target.
pub open spec fn raw_target(t: Seq<Seq<u8>>) -> Option<Seq<u8>> {
    match host_value(t, 2) {
        Some(v) => Some(v),
        None => if t.len() > 1 {
            Some(t[1])
        } else {
            None
        },
    }
}

/// A target with `:80` added when it holds no port: when it is a bracketed
/// IPv6 literal or holds no colon.
pub open spec fn with_default_port(a: Seq<u8>) -> Seq<u8> {
    if (a.len() > 0 && a[0] == 91 && a[a.len() - 1] == 93) || !a.contains(58u8) {
        a + seq![58u8, 56u8, 48u8]
    } else {
        a
    }
}

/// The `host:port` target of a request held in `s`.
pub open spec fn request_target(s: Seq<u8>) -> Option<Seq<u8>> {
    match raw_target(tokens(s)) {
        Some(a) => Some(with_default_port(a)),
        None => None,
    }
}

/// Whether the request's method is `CONNECT`, in any case.
pub open spec fn is_connect_request(s: Seq<u8>) -> bool {
    tokens(s).len() > 0 && eq_ignore_case(tokens(s)[0], connect_word())
}

/// The pieces of `s` between the given start and end offsets.
pub open spec fn ranges_tokens(s: Seq<u8>, r: Seq<(usize, usize)>) -> Seq<Seq<u8>> {
    r.map_values(|p: (usize, usize)| s.subrange(p.0 as int, p.1 as int))
}

/// The start and end of each token of `buf`.
fn token_ranges(buf: &[u8]) -> (r: Vec<(usize, usize)>)
    ensures
        ranges_tokens(buf@, r@) == tokens(buf@),
        forall|k: int| 0 <= k < r@.len() ==> #[trigger] r@[k].0 <= r@[k].1 <= buf@.len(),
{
    let ghost s = buf@;
    let len = buf.len();
    let mut r: Vec<(usize, usize)> = Vec::new();
    let mut i: usize = 0;
    assert(s.subrange(0, len as int) =~= s);
    while i < len
        invariant
            0 <= i <= len == s.len(),
            s == buf@,
            tokens(s) == ranges_tokens(s, r@) + tokens(s.subrange(i as int, len as int)),
            forall|k: int| 0 <= k < r@.len() ==> #[trigger] r@[k].0 <= r@[k].1 <= len,
        decreases len - i,
    {
        if is_space(buf[i]) {
            assert(s.subrange(i as int, len as int).drop_first() =~= s.subrange(i + 1, len as int));
            i = i + 1;
        } else {
            let start = i;
            let mut j: usize = i;
            while j < len && !is_space(buf[j])
                invariant
                    start <= j <= len == s.len(),
                    s == buf@,
                    start < len,
                    token_len(s.subrange(start as int, len as int)) == (j - start) + token_len(
                        s.subrange(j as int, len as int),
                    ),
                decreases len - j,
            {
                assert(s.subrange(j as int, len as int).drop_first() =~= s.subrange(j + 1, len as int));
                j = j + 1;
            }
            let ghost sub = s.subrange(start as int, len as int);
            assert(token_len(s.subrange(j as int, len as int)) == 0);
            assert(sub.take((j - start) as int) =~= s.subrange(start as int, j as int));
            assert(sub.skip((j - start) as int) =~= s.subrange(j as int, len as int));
            let ghost before = r@;
            r.push((start, j));
            assert(ranges_tokens(s, r@) =~= ranges_tokens(s, before) + seq![s.subrange(start as int, j as int)]);
            i = j;
        }
    }
    assert(s.subrange(len as int, len as int) =~= Seq::<u8>::empty());
    assert(ranges_tokens(s, r@) + tokens(Seq::<u8>::empty()) =~= ranges_tokens(s, r@));
    r
}

fn is_space(b: u8) -> (r: bool)
    ensures
        r == is_ws(b),
{
    b == 32 || b == 9 || b == 10 || b == 12 || b == 13
}

fn lower_byte(b: u8) -> (r: u8)
    ensures
        r == lower(b),
{
    if 65 <= b && b <= 90 {
        b + 32
    } else {
        b
    }
}

/// Whether `buf[start..end]` equals the lower-case word `w`, ignoring case.
fn range_eq_ignore_case(buf: &[u8], start: usize, end: usize, w: &[u8]) -> (r: bool)
    requires
        start <= end <= buf@.len(),
    ensures
        r == eq_ignore_case(buf@.subrange(start as int, end as int), w@),
{
    let ghost t = buf@.subrange(start as int, end as int);
    if end - start != w.len() {
        return false;
    }
    let mut i: usize = 0;
    while i < w.len()
        invariant
            start <= end <= buf@.len(),
            end - start == w@.len(),
            t == buf@.subrange(start as int, end as int),
            0 <= i <= w@.len(),
            forall|j: int| 0 <= j < i ==> lower(#[trigger] t[j]) == w@[j],
        decreases w@.len() - i,
    {
        if lower_byte(buf[start + i]) != w[i] {
            assert(lower(t[i as int]) != w@[i as int]);
            return false;
        }
        i = i + 1;
    }
    true
}

proof fn lemma_host_value_step(t: Seq<Seq<u8>>, k: int)
    requires
        0 <= k < t.len(),
        !eq_ignore_case(t[k], host_key()),
    ensures
        host_value(t, k) == host_value(t, k + 1),
{
}

/// The `host:port` target of the request held in `buffer`: the value of the
/// first `Host:` header, else the request-target, with `:80` added when it
/// names no port.
pub fn http_addr(buffer: &[u8]) -> (r: Option<Vec<u8>>)
    ensures
        match request_target(buffer@) {
            Some(a) => r matches Some(v) && v@ == a,
            None => r is None,
        },
{
    let ghost s = buffer@;
    let ranges = token_ranges(buffer);
    let ghost t = tokens(s);
    let n = ranges.len();
    assert(t.len() == n);
    let key: [u8; 5] = [104, 111, 115, 116, 58];
    assert(key@ =~= host_key());
    let mut chosen: Option<(usize, usize)> = None;
    let mut k: usize = 2;
    while k < n
        invariant_except_break
            chosen is None,
        invariant
            n == ranges@.len() == t.len(),
            t == tokens(s),
            s == buffer@,
            ranges_tokens(s, ranges@) == t,
            forall|m: int| 0 <= m < ranges@.len() ==> #[trigger] ranges@[m].0 <= ranges@[m].1 <= s.len(),
            key@ == host_key(),
            2 <= k,
            k <= n || n < 2,
            host_value(t, 2) == host_value(t, k as int),
        ensures
            chosen is None ==> host_value(t, 2) is None,
            chosen matches Some((a, b)) ==> a <= b <= s.len() && host_value(t, 2) == Some(
                s.subrange(a as int, b as int),
            ),
        decreases n - k,
    {
        let (a, b) = ranges[k];
        assert(t[k as int] == s.subrange(a as int, b as int));
        if range_eq_ignore_case(buffer, a, b, key.as_slice()) {
            if k + 1 < n {
                chosen = Some(ranges[k + 1]);
                assert(t[k + 1] == s.subrange(ranges@[k + 1].0 as int, ranges@[k + 1].1 as int));
            }
            break;
        }
        proof {
            lemma_host_value_step(t, k as int);
        }
        k = k + 1;
    }
    if chosen.is_none() && n > 1 {
        chosen = Some(ranges[1]);
        assert(t[1] == s.subrange(ranges@[1].0 as int, ranges@[1].1 as int));
    }
    match chosen {
        None => None,
        Some((a, b)) => {
            let mut v: Vec<u8> = Vec::new();
            let mut i: usize = a;
            let mut has_colon = false;
            while i < b
                invariant
                    a <= i <= b <= buffer@.len(),
                    v@ == buffer@.subrange(a as int, i as int),
                    has_colon == v@.contains(58u8),
                decreases b - i,
            {
                let c = buffer[i];
                let ghost old_v = v@;
                v.push(c);
                i = i + 1;
                assert(v@ =~= buffer@.subrange(a as int, i as int));
                if c == 58 {
                    has_colon = true;
                    assert(v@[v@.len() - 1] == 58u8);
                } else {
                    assert(v@ == old_v.push(c));
                    assert(v@.contains(58u8) ==> old_v.contains(58u8)) by {
                        if v@.contains(58u8) {
                            let j = choose|j: int| 0 <= j < v@.len() && v@[j] == 58u8;
                            assert(j < old_v.len());
                            assert(old_v[j] == 58u8);
                        }
                    }
                }
            }
            let l = v.len();
            let bracketed = l > 0 && v[0] == 91 && v[l - 1] == 93;
            if bracketed || !has_colon {
                v.push(58);
                v.push(56);
                v.push(48);
            }
            Some(v)
        },
    }
}

/// What sniffing a request finds: whether it opens a tunnel, and its target.
#[derive(Clone, Debug, PartialEq, Eq)]
pub struct HttpRequest {
    pub is_connect: bool,
    pub target: Vec<u8>,
}

/// Whether the first token of `buffer` is `CONNECT`, in any case.
pub fn is_connect(buffer: &[u8]) -> (r: bool)
    ensures
        r == is_connect_request(buffer@),
{
    let ranges = token_ranges(buffer);
    if ranges.len() == 0 {
        return false;
    }
    let word: [u8; 7] = [99, 111, 110, 110, 101, 99, 116];
    assert(word@ =~= connect_word());
    let (a, b) = ranges[0];
    assert(tokens(buffer@)[0] == buffer@.subrange(a as int, b as int));
    range_eq_ignore_case(buffer, a, b, word.as_slice())
}

/// Reads the method and target of a request; `None` when it names no target.
pub fn sniff_http(buffer: &[u8]) -> (r: Option<HttpRequest>)
    ensures
        match request_target(buffer@) {
            Some(a) => r matches Some(q) && q.target@ == a && q.is_connect == is_connect_request(
                buffer@,
            ),
            None => r is None,
        },
{
    match http_addr(buffer) {
        Some(target) => Some(HttpRequest { is_connect: is_connect(buffer), target }),
        None => None,
    }
}

/// Whether every byte of `w` is whitespace.
pub open spec fn all_ws(w: Seq<u8>) -> bool {
    forall|i: int| 0 <= i < w.len() ==> is_ws(#[trigger] w[i])
}

/// Whether `t` can be a token: non-empty, with no whitespace.
pub open spec fn is_token(t: Seq<u8>) -> bool {
    t.len() > 0 && forall|i: int| 0 <= i < t.len() ==> !is_ws(#[trigger] t[i])
}

/// `seps[0] toks[0] seps[1] toks[1] ... toks[n-1] seps[n]`.
pub open spec fn join_ws(toks: Seq<Seq<u8>>, seps: Seq<Seq<u8>>) -> Seq<u8>
    decreases toks.len(),
{
    if toks.len() == 0 || seps.len() == 0 {
        if seps.len() > 0 {
            seps[0]
        } else {
            seq![]
        }
    } else {
        seps[0] + toks[0] + join_ws(toks.drop_first(), seps.drop_first())
    }
}

/// Separators fit for joining `n` tokens: `n + 1` runs of whitespace, all
/// but the first and the last non-empty.
pub open spec fn valid_separators(seps: Seq<Seq<u8>>, n: nat) -> bool {
    &&& seps.len() == n + 1
    &&& forall|i: int| 0 <= i < seps.len() ==> all_ws(#[trigger] seps[i])
    &&& forall|i: int| 1 <= i < n ==> (#[trigger] seps[i]).len() > 0
}

proof fn lemma_tokens_skip_ws(w: Seq<u8>, s: Seq<u8>)
    requires
        all_ws(w),
    ensures
        tokens(w + s) == tokens(s),
    decreases w.len(),
{
    if w.len() > 0 {
        assert((w + s)[0] == w[0]);
        assert((w + s).drop_first() =~= w.drop_first() + s);
        lemma_tokens_skip_ws(w.drop_first(), s);
    } else {
        assert(w + s =~= s);
    }
}

proof fn lemma_token_len_of_token(t: Seq<u8>, s: Seq<u8>)
    requires
        forall|i: int| 0 <= i < t.len() ==> !is_ws(#[trigger] t[i]),
        s.len() == 0 || is_ws(s[0]),
    ensures
        token_len(t + s) == t.len(),
    decreases t.len(),
{
    if t.len() > 0 {
        assert((t + s)[0] == t[0]);
        assert((t + s).drop_first() =~= t.drop_first() + s);
        lemma_token_len_of_token(t.drop_first(), s);
    } else {
        assert(t + s =~= s);
    }
}

proof fn lemma_tokens_of_token(t: Seq<u8>, s: Seq<u8>)
    requires
        is_token(t),
        s.len() == 0 || is_ws(s[0]),
    ensures
        tokens(t + s) == seq![t] + tokens(s),
{
    lemma_token_len_of_token(t, s);
    assert((t + s)[0] == t[0]);
    assert((t + s).take(t.len() as int) =~= t);
    assert((t + s).skip(t.len() as int) =~= s);
}

/// Joining tokens with whitespace gives back exactly those tokens.
pub proof fn lemma_tokens_of_join(toks: Seq<Seq<u8>>, seps: Seq<Seq<u8>>)
    requires
        forall|i: int| 0 <= i < toks.len() ==> is_token(#[trigger] toks[i]),
        valid_separators(seps, toks.len()),
    ensures
        tokens(join_ws(toks, seps)) == toks,
    decreases toks.len(),
{
    if toks.len() == 0 {
        lemma_tokens_skip_ws(seps[0], seq![]);
        assert(seps[0] + Seq::<u8>::empty() =~= seps[0]);
        assert(tokens(Seq::<u8>::empty()) == Seq::<Seq<u8>>::empty());
        assert(toks =~= Seq::<Seq<u8>>::empty());
    } else {
        let rest_t = toks.drop_first();
        let rest_s = seps.drop_first();
        assert forall|i: int| 0 <= i < rest_t.len() implies is_token(#[trigger] rest_t[i]) by {
            assert(rest_t[i] == toks[i + 1]);
        }
        assert forall|i: int| 0 <= i < rest_s.len() implies all_ws(#[trigger] rest_s[i]) by {
            assert(rest_s[i] == seps[i + 1]);
        }
        assert forall|i: int| 1 <= i < rest_t.len() implies (#[trigger] rest_s[i]).len() > 0 by {
            assert(rest_s[i] == seps[i + 1]);
        }
        lemma_tokens_of_join(rest_t, rest_s);
        let rest = join_ws(rest_t, rest_s);
        if rest.len() > 0 {
            if rest_t.len() == 0 {
                assert(rest == rest_s[0]);
                assert(all_ws(rest_s[0]));
            } else {
                assert(rest == rest_s[0] + rest_t[0] + join_ws(rest_t.drop_first(), rest_s.drop_first()));
                assert(rest_s[0] == seps[1]);
                assert(seps[1].len() > 0);
                assert(rest[0] == rest_s[0][0]);
                assert(all_ws(rest_s[0]));
            }
        }
        lemma_tokens_of_token(toks[0], rest);
        let whole = join_ws(toks, seps);
        assert(whole == seps[0] + toks[0] + rest);
        assert(seps[0] + toks[0] + rest =~= seps[0] + (toks[0] + rest));
        lemma_tokens_skip_ws(seps[0], toks[0] + rest);
        assert(seq![toks[0]] + rest_t =~= toks);
    }
}

/// The method and target of a request do not depend on the whitespace
/// between its tokens: the same tokens joined by any two choices of
/// separators give the same method and target.
pub proof fn lemma_sniff_ignores_spacing(toks: Seq<Seq<u8>>, a: Seq<Seq<u8>>, b: Seq<Seq<u8>>)
    requires
        forall|i: int| 0 <= i < toks.len() ==> is_token(#[trigger] toks[i]),
        valid_separators(a, toks.len()),
        valid_separators(b, toks.len()),
    ensures
        request_target(join_ws(toks, a)) == request_target(join_ws(toks, b)),
        is_connect_request(join_ws(toks, a)) == is_connect_request(join_ws(toks, b)),
{
    lemma_tokens_of_join(toks, a);
    lemma_tokens_of_join(toks, b);
}

} // verus!
