use vstd::prelude::*;

verus! {

/// The unsigned integer that `s` encodes most significant byte first.
pub open spec fn be_uint(s: Seq<u8>) -> nat
    decreases s.len(),
{
    if s.len() == 0 {
        0
    } else {
        be_uint(s.drop_last()) * 256 + s.last() as nat
    }
}

/// The unsigned integer that `s` encodes least significant byte first.
pub open spec fn le_uint(s: Seq<u8>) -> nat
    decreases s.len(),
{
    if s.len() == 0 {
        0
    } else {
        s[0] as nat + 256 * le_uint(s.skip(1))
    }
}

/// `256` raised to the power `n`.
pub open spec fn byte_pow(n: nat) -> nat
    decreases n,
{
    if n == 0 {
        1
    } else {
        256 * byte_pow((n - 1) as nat)
    }
}

pub proof fn lemma_byte_pow_mono(a: nat, b: nat)
    requires
        a <= b,
    ensures
        byte_pow(a) <= byte_pow(b),
    decreases b,
{
    if a < b {
        lemma_byte_pow_mono(a, (b - 1) as nat);
    }
}

pub proof fn lemma_be_uint_bound(s: Seq<u8>)
    ensures
        be_uint(s) < byte_pow(s.len()),
    decreases s.len(),
{
    if s.len() > 0 {
        let p = byte_pow((s.len() - 1) as nat);
        let h = be_uint(s.drop_last());
        lemma_be_uint_bound(s.drop_last());
        let l = s.last() as nat;
        assert(h * 256 + l < 256 * p) by (nonlinear_arith)
            requires
                h < p,
                l < 256,
        ;
    }
}

pub proof fn lemma_le_uint_bound(s: Seq<u8>)
    ensures
        le_uint(s) < byte_pow(s.len()),
    decreases s.len(),
{
    if s.len() > 0 {
        let p = byte_pow((s.len() - 1) as nat);
        let h = le_uint(s.skip(1));
        lemma_le_uint_bound(s.skip(1));
        let l = s[0] as nat;
        assert(l + 256 * h < 256 * p) by (nonlinear_arith)
            requires
                h < p,
                l < 256,
        ;
    }
}

pub proof fn lemma_byte_pow_7()
    ensures
        byte_pow(7) == 0x100000000000000nat,
{
    reveal_with_fuel(byte_pow, 8);
}

/// Reading `a` then `b` big-endian: `a` shifted past the bytes of `b`, plus `b`.
pub proof fn lemma_be_uint_concat(a: Seq<u8>, b: Seq<u8>)
    ensures
        be_uint(a + b) == be_uint(a) * byte_pow(b.len()) + be_uint(b),
    decreases b.len(),
{
    if b.len() == 0 {
        assert(a + b =~= a);
        assert(byte_pow(0) == 1);
        assert(be_uint(b) == 0);
    } else {
        assert((a + b).drop_last() =~= a + b.drop_last());
        lemma_be_uint_concat(a, b.drop_last());
        let p = byte_pow((b.len() - 1) as nat);
        assert((a + b).last() == b.last());
        assert(byte_pow(b.len()) == 256 * p);
        assert(be_uint(a + b) == be_uint((a + b).drop_last()) * 256 + b.last() as nat);
        assert(be_uint(b) == be_uint(b.drop_last()) * 256 + b.last() as nat);
        assert(be_uint(a) * (256 * p) == (be_uint(a) * p) * 256) by (nonlinear_arith);
        let x = be_uint(a);
        let y = be_uint(b.drop_last());
        let l = b.last() as nat;
        assert((x * p + y) * 256 + l == x * (256 * p) + (y * 256 + l)) by (nonlinear_arith);
    }
}

/// Reading `a` then `b` little-endian: `a`, plus `b` shifted past the bytes of `a`.
pub proof fn lemma_le_uint_concat(a: Seq<u8>, b: Seq<u8>)
    ensures
        le_uint(a + b) == le_uint(a) + byte_pow(a.len()) * le_uint(b),
    decreases a.len(),
{
    if a.len() == 0 {
        assert(a + b =~= b);
        assert(byte_pow(0) == 1);
        assert(le_uint(a) == 0);
    } else {
        assert((a + b).skip(1) =~= a.skip(1) + b);
        assert((a + b)[0] == a[0]);
        lemma_le_uint_concat(a.skip(1), b);
        let p = byte_pow((a.len() - 1) as nat);
        assert(byte_pow(a.len()) == 256 * p);
        let x = le_uint(a.skip(1));
        let y = le_uint(b);
        let f = a[0] as nat;
        assert(f + 256 * (x + p * y) == (f + 256 * x) + (256 * p) * y) by (nonlinear_arith);
    }
}

pub proof fn lemma_byte_pow_4()
    ensures
        byte_pow(4) == 0x100000000nat,
{
    reveal_with_fuel(byte_pow, 5);
}

/// Reads `n <= 8` bytes at `start` as a big-endian integer.
pub fn read_be(buf: &[u8], start: usize, n: usize) -> (r: u64)
    requires
        n <= 8,
        start + n <= buf@.len(),
    ensures
        r as nat == be_uint(buf@.subrange(start as int, start + n)),
{
    let mut v: u64 = 0;
    let mut i: usize = 0;
    while i < n
        invariant
            i <= n <= 8,
            start + n <= buf.len(),
            v as nat == be_uint(buf@.subrange(start as int, start + i)),
        decreases n - i,
    {
        let ghost prev = buf@.subrange(start as int, start + i);
        let ghost next = buf@.subrange(start as int, start + i + 1);
        proof {
            assert(next.drop_last() =~= prev);
            lemma_be_uint_bound(prev);
            lemma_byte_pow_mono(i as nat, 7);
            lemma_byte_pow_7();
        }
        v = v * 256 + buf[start + i] as u64;
        i = i + 1;
    }
    v
}

/// Reads `n <= 8` bytes at `start` as a little-endian integer.
pub fn read_le(buf: &[u8], start: usize, n: usize) -> (r: u64)
    requires
        n <= 8,
        start + n <= buf@.len(),
    ensures
        r as nat == le_uint(buf@.subrange(start as int, start + n)),
{
    let mut v: u64 = 0;
    let mut i: usize = n;
    while i > 0
        invariant
            i <= n <= 8,
            start + n <= buf.len(),
            v as nat == le_uint(buf@.subrange(start + i, start + n)),
        decreases i,
    {
        let ghost prev = buf@.subrange(start + i, start + n);
        let ghost next = buf@.subrange(start + i - 1, start + n);
        proof {
            assert(next.skip(1) =~= prev);
            lemma_le_uint_bound(prev);
            lemma_byte_pow_mono((n - i) as nat, 7);
            lemma_byte_pow_7();
        }
        i = i - 1;
        v = buf[start + i] as u64 + 256 * v;
    }
    v
}

} // verus!
