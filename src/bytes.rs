//! Little-endian integer encoding used throughout the wire format.
use vstd::prelude::*;

verus! {

/// The `w` low-order bytes of `n`, least significant first.
pub open spec fn le_bytes(n: nat, w: nat) -> Seq<u8>
    decreases w,
{
    if w == 0 {
        Seq::empty()
    } else {
        seq![(n % 256) as u8] + le_bytes(n / 256, (w - 1) as nat)
    }
}

/// The number that a little-endian byte string denotes.
pub open spec fn le_value(s: Seq<u8>) -> nat
    decreases s.len(),
{
    if s.len() == 0 {
        0
    } else {
        s[0] as nat + 256 * le_value(s.drop_first())
    }
}

pub open spec fn pow256(w: nat) -> nat
    decreases w,
{
    if w == 0 {
        1
    } else {
        256 * pow256((w - 1) as nat)
    }
}

pub proof fn lemma_le_bytes_len(n: nat, w: nat)
    ensures
        le_bytes(n, w).len() == w,
    decreases w,
{
    if w > 0 {
        lemma_le_bytes_len(n / 256, (w - 1) as nat);
    }
}

/// Decoding the encoding of a number that fits gives the number back.
pub proof fn lemma_le_round_trip(n: nat, w: nat)
    requires
        n < pow256(w),
    ensures
        le_value(le_bytes(n, w)) == n,
    decreases w,
{
    if w > 0 {
        let rest = le_bytes(n / 256, (w - 1) as nat);
        assert(n / 256 < pow256((w - 1) as nat)) by (nonlinear_arith)
            requires
                n < 256 * pow256((w - 1) as nat),
        ;
        lemma_le_round_trip(n / 256, (w - 1) as nat);
        assert(le_bytes(n, w).drop_first() =~= rest);
        assert(((n % 256) as u8) as nat == n % 256);
    } else {
        assert(n == 0);
    }
}

pub proof fn lemma_pow256_values()
    ensures
        pow256(2) == 65536,
        pow256(4) == 4294967296,
        pow256(8) == 18446744073709551616,
{
    reveal_with_fuel(pow256, 9);
}

/// Appends the `w` low-order bytes of `n` to `out`, least significant first.
pub fn push_le(out: &mut Vec<u8>, n: u64, w: usize)
    requires
        w <= 8,
    ensures
        final(out)@ == old(out)@ + le_bytes(n as nat, w as nat),
{
    let mut v: u64 = n;
    let mut i: usize = 0;
    while i < w
        invariant
            i <= w,
            out@ + le_bytes(v as nat, (w - i) as nat) == old(out)@ + le_bytes(n as nat, w as nat),
        decreases w - i,
    {
        let b: u8 = (v % 256) as u8;
        assert(le_bytes(v as nat, (w - i) as nat) == seq![b] + le_bytes((v / 256) as nat, (w - i - 1) as nat));
        out.push(b);
        assert(out@ + le_bytes((v / 256) as nat, (w - i - 1) as nat) =~= old(out)@ + le_bytes(n as nat, w as nat));
        v = v / 256;
        i = i + 1;
    }
    assert(le_bytes(v as nat, 0) =~= Seq::<u8>::empty());
    assert(out@ + le_bytes(v as nat, 0) =~= out@);
}

pub proof fn lemma_pow256_mono(a: nat, b: nat)
    requires
        a <= b,
    ensures
        pow256(a) <= pow256(b),
    decreases b,
{
    if a < b {
        lemma_pow256_mono(a, (b - 1) as nat);
    }
}

/// The number held by `s[start..start + w]`, least significant byte first.
pub fn read_le(s: &[u8], start: usize, w: usize) -> (r: u64)
    requires
        w <= 8,
        start + w <= s@.len(),
    ensures
        r as nat == le_value(s@.subrange(start as int, start + w)),
{
    let len: usize = s.len();
    let mut acc: u64 = 0;
    let mut i: usize = w;
    assert(s@.subrange(start + w, start + w) =~= Seq::<u8>::empty());
    while i > 0
        invariant
            i <= w,
            start + w <= s@.len(),
            s@.len() == len,
            w <= 8,
            acc as nat == le_value(s@.subrange(start + i, start + w)),
            (acc as nat) < pow256((w - i) as nat),
        decreases i,
    {
        let ghost tail = s@.subrange(start + i, start + w);
        let ghost whole = s@.subrange(start + i - 1, start + w);
        assert(whole.drop_first() =~= tail);
        let ghost p = pow256((w - i) as nat);
        proof {
            lemma_pow256_values();
            lemma_pow256_mono((w - i) as nat, 7);
            reveal_with_fuel(pow256, 8);
        }
        let b = s[start + (i - 1)];
        let prev = acc;
        assert(prev * 256 + 255 < 256 * p <= 18446744073709551616) by (nonlinear_arith)
            requires
                prev < p,
                p <= 72057594037927936,
        ;
        acc = prev * 256 + b as u64;
        i = i - 1;
        assert(pow256((w - i) as nat) == 256 * p);
    }
    acc
}

} // verus!
