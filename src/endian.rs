//! Little-endian encoding of unsigned integers into a fixed number of bytes.
use vstd::prelude::*;

verus! {

/// `256` raised to the power `n`: the number of values that `n` bytes can hold.
pub open spec fn span(n: nat) -> nat
    decreases n,
{
    if n == 0 {
        1
    } else {
        256 * span((n - 1) as nat)
    }
}

/// The `n` bytes of `v`, least significant first (higher bytes of `v` dropped).
pub open spec fn le_bytes(v: nat, n: nat) -> Seq<u8>
    decreases n,
{
    if n == 0 {
        Seq::empty()
    } else {
        seq![(v % 256) as u8] + le_bytes(v / 256, (n - 1) as nat)
    }
}

/// The value of a byte sequence read least significant byte first.
pub open spec fn le_value(s: Seq<u8>) -> nat
    decreases s.len(),
{
    if s.len() == 0 {
        0
    } else {
        s[0] as nat + 256 * le_value(s.drop_first())
    }
}

pub proof fn lemma_span_values()
    ensures
        span(4) == 0x1_0000_0000,
        span(8) == 0x1_0000_0000_0000_0000,
{
    reveal_with_fuel(span, 9);
}

pub proof fn lemma_span_monotone(m: nat, n: nat)
    requires
        m <= n,
    ensures
        span(m) <= span(n),
    decreases n,
{
    if m < n {
        lemma_span_monotone(m, (n - 1) as nat);
    }
}

pub proof fn lemma_le_bytes_len(v: nat, n: nat)
    ensures
        le_bytes(v, n).len() == n,
    decreases n,
{
    if n > 0 {
        lemma_le_bytes_len(v / 256, (n - 1) as nat);
    }
}

/// Reading back the `n` bytes of a value that fits in them gives the value.
pub proof fn lemma_le_round_trip(v: nat, n: nat)
    requires
        v < span(n),
    ensures
        le_value(le_bytes(v, n)) == v,
    decreases n,
{
    if n > 0 {
        let rest = le_bytes(v / 256, (n - 1) as nat);
        let s = le_bytes(v, n);
        lemma_le_bytes_len(v / 256, (n - 1) as nat);
        assert(s.drop_first() =~= rest);
        assert(v / 256 < span((n - 1) as nat)) by (nonlinear_arith)
            requires
                v < 256 * span((n - 1) as nat),
        ;
        lemma_le_round_trip(v / 256, (n - 1) as nat);
        assert(v == v % 256 + 256 * (v / 256)) by (nonlinear_arith);
    } else {
        assert(v == 0);
    }
}

/// Appends the `n` little-endian bytes of `v` to `buf`.
pub fn push_le(buf: &mut Vec<u8>, v: u64, n: usize)
    requires
        v < span(n as nat),
    ensures
        final(buf)@ == old(buf)@ + le_bytes(v as nat, n as nat),
{
    let ghost start = old(buf)@;
    let mut x: u64 = v;
    let mut i: usize = 0;
    while i < n
        invariant
            i <= n,
            start + le_bytes(v as nat, n as nat) == buf@ + le_bytes(x as nat, (n - i) as nat),
        decreases n - i,
    {
        let b: u8 = (x % 256) as u8;
        proof {
            let tail = le_bytes((x / 256) as nat, (n - i - 1) as nat);
            assert(le_bytes(x as nat, (n - i) as nat) == seq![b] + tail);
            assert(buf@ + (seq![b] + tail) =~= buf@.push(b) + tail);
        }
        buf.push(b);
        x = x / 256;
        i = i + 1;
    }
    assert(buf@ + le_bytes(x as nat, 0) =~= buf@);
}

/// Reads `n` bytes of `bytes` from `start` on, least significant first.
pub fn read_le(bytes: &[u8], start: usize, n: usize) -> (r: u64)
    requires
        n <= 8,
        start + n <= bytes@.len(),
    ensures
        r as nat == le_value(bytes@.subrange(start as int, start + n)),
        (r as nat) < span(n as nat),
{
    let len: usize = bytes.len();
    let mut val: u64 = 0;
    let mut k: usize = n;
    proof {
        lemma_span_values();
        assert(bytes@.subrange(start + n, start + n) =~= Seq::<u8>::empty());
    }
    while k > 0
        invariant
            k <= n <= 8,
            start + n <= bytes@.len() == len,
            span(8) == 0x1_0000_0000_0000_0000,
            val as nat == le_value(bytes@.subrange(start + k, start + n)),
            (val as nat) < span((n - k) as nat),
        decreases k,
    {
        let b: u8 = bytes[start + k - 1];
        let ghost sp = span((n - k) as nat);
        proof {
            lemma_span_monotone((n - k + 1) as nat, 8);
            assert(span((n - k + 1) as nat) == 256 * sp);
            assert(val * 256 + b < 256 * sp) by (nonlinear_arith)
                requires
                    val < sp,
                    b < 256,
            ;
            let s = bytes@.subrange(start + k - 1, start + n);
            assert(s.drop_first() =~= bytes@.subrange(start + k, start + n));
        }
        val = val * 256 + b as u64;
        k = k - 1;
    }
    val
}

} // verus!
