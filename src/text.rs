use vstd::prelude::*;
use vstd::utf8::valid_utf8;

verus! {

/// The ASCII character of a digit value below 16 (lower-case for hex).
pub open spec fn digit_char(d: nat) -> u8 {
    if d < 10 {
        (48 + d) as u8
    } else {
        (87 + d) as u8
    }
}

/// The digits of `n` in `base`, most significant first, without leading zeros
/// (`0` is written as one digit).
pub open spec fn digits(n: nat, base: nat) -> Seq<u8>
    decreases n
    via digits_decreases
{
    if base < 2 {
        seq![]
    } else if n < base {
        seq![digit_char(n)]
    } else {
        digits(n / base, base) + seq![digit_char(n % base)]
    }
}

#[via_fn]
proof fn digits_decreases(n: nat, base: nat) {
    if base >= 2 && n >= base {
        assert(n / base < n) by (nonlinear_arith)
            requires
                n >= base,
                base >= 2,
        ;
    }
}

/// Decimal text of a number.
pub open spec fn decimal(n: nat) -> Seq<u8> {
    digits(n, 10)
}

/// Lower-case hexadecimal text of a number.
pub open spec fn hex(n: nat) -> Seq<u8> {
    digits(n, 16)
}

/// Appends the digits of `n` in `base` to `out`.
pub fn push_digits(out: &mut Vec<u8>, n: u64, base: u64)
    requires
        2 <= base <= 16,
    ensures
        final(out)@ == old(out)@ + digits(n as nat, base as nat),
    decreases n,
{
    if n >= base {
        assert(n / base < n) by (nonlinear_arith)
            requires
                n >= base,
                base >= 2,
        ;
        push_digits(out, n / base, base);
    }
    let d: u64 = n % base;
    let c: u8 = if d < 10 {
        (48 + d) as u8
    } else {
        (87 + d) as u8
    };
    assert(c == digit_char(n as nat % base as nat));
    if n < base {
        assert(n % base == n) by (nonlinear_arith)
            requires
                n < base,
                base >= 2,
        ;
    }
    out.push(c);
    assert(out@ =~= old(out)@ + digits(n as nat, base as nat));
}

/// Appends every byte of `data` to `out`.
pub fn push_all(out: &mut Vec<u8>, data: &[u8])
    ensures
        final(out)@ == old(out)@ + data@,
{
    let mut i: usize = 0;
    while i < data.len()
        invariant
            0 <= i <= data@.len(),
            out@ == old(out)@ + data@.subrange(0, i as int),
        decreases data@.len() - i,
    {
        out.push(data[i]);
        i = i + 1;
        assert(out@ =~= old(out)@ + data@.subrange(0, i as int));
    }
    assert(data@.subrange(0, data@.len() as int) =~= data@);
}

/// Copies `buf[start..end]` into a new vector.
pub fn copy_range(buf: &[u8], start: usize, end: usize) -> (r: Vec<u8>)
    requires
        start <= end <= buf@.len(),
    ensures
        r@ == buf@.subrange(start as int, end as int),
{
    let mut r: Vec<u8> = Vec::new();
    let mut i: usize = start;
    while i < end
        invariant
            start <= i <= end <= buf@.len(),
            r@ == buf@.subrange(start as int, i as int),
        decreases end - i,
    {
        r.push(buf[i]);
        i = i + 1;
        assert(r@ =~= buf@.subrange(start as int, i as int));
    }
    r
}

/// A copy of `v`.
pub fn duplicate(v: &Vec<u8>) -> (r: Vec<u8>)
    ensures
        r@ == v@,
{
    let r = copy_range(v.as_slice(), 0, v.len());
    assert(v@.subrange(0, v@.len() as int) =~= v@);
    r
}

/// Relies on core::str::from_utf8: it succeeds exactly on valid UTF-8.
#[verifier::external_body]
pub(crate) fn is_utf8(b: &[u8]) -> (r: bool)
    ensures
        r == valid_utf8(b@),
{
    core::str::from_utf8(b).is_ok()
}

} // verus!
