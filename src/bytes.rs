//! Big-endian unsigned integers of a fixed number of bytes.
use vstd::prelude::*;
use vstd::arithmetic::div_mod::lemma_div_denominator;

verus! {

/// 256 raised to `n`.
pub open spec fn pow256(n: nat) -> nat
    decreases n,
{
    if n == 0 { 1 } else { 256 * pow256((n - 1) as nat) }
}

/// The number that the bytes `s` hold, most significant byte first.
pub open spec fn be_value(s: Seq<u8>) -> nat
    decreases s.len(),
{
    if s.len() == 0 { 0 } else { be_value(s.drop_last()) * 256 + s.last() as nat }
}

/// The `n` bytes that hold `v` (taken modulo 256 to the `n`), most significant first.
pub open spec fn be_encode(v: nat, n: nat) -> Seq<u8> {
    Seq::new(n, |i: int| ((v / pow256((n - 1 - i) as nat)) % 256) as u8)
}

pub proof fn lemma_pow256_positive(n: nat)
    ensures
        pow256(n) > 0,
    decreases n,
{
    if n > 0 {
        lemma_pow256_positive((n - 1) as nat);
    }
}

pub proof fn lemma_pow256_16()
    ensures
        pow256(16) == 0x1_0000_0000_0000_0000_0000_0000_0000_0000,
        pow256(4) == 0x1_0000_0000,
        pow256(2) == 0x1_0000,
{
    reveal_with_fuel(pow256, 17);
}

/// The value of `n` bytes is below 256 to the `n`.
pub proof fn lemma_be_value_bound(s: Seq<u8>)
    ensures
        be_value(s) < pow256(s.len()),
    decreases s.len(),
{
    if s.len() > 0 {
        let init = s.drop_last();
        lemma_be_value_bound(init);
        let a = be_value(init);
        let p = pow256(init.len());
        let l = s.last() as nat;
        assert(a * 256 + l < 256 * p) by (nonlinear_arith)
            requires
                a < p,
                l < 256,
        ;
    }
}

/// Encoding a value that fits in `n` bytes and reading it back gives the value.
pub proof fn lemma_be_round_trip(v: nat, n: nat)
    requires
        v < pow256(n),
    ensures
        be_value(be_encode(v, n)) == v,
        be_encode(v, n).len() == n,
    decreases n,
{
    if n == 0 {
        assert(v == 0);
    } else {
        let m = (n - 1) as nat;
        let e = be_encode(v, n);
        let q = v / 256;
        assert(q < pow256(m)) by (nonlinear_arith)
            requires
                v < 256 * pow256(m),
                q == v / 256,
        ;
        assert forall|i: int| 0 <= i < m implies e.drop_last()[i] == be_encode(q, m)[i] by {
            let k = (m - 1 - i) as nat;
            lemma_pow256_positive(k);
            lemma_div_denominator(v as int, 256, pow256(k) as int);
            assert(pow256((n - 1 - i) as nat) == 256 * pow256(k));
        }
        assert(e.drop_last() =~= be_encode(q, m));
        lemma_be_round_trip(q, m);
        assert(pow256(0) == 1);
        assert(e[n - 1] == ((v / pow256(0)) % 256) as u8);
        assert(v / 1 == v);
        assert(e.last() == (v % 256) as u8);
        assert(v == q * 256 + v % 256);
    }
}

/// Reads the `n` bytes of `b` from `pos` as a big-endian integer.
pub fn read_be(b: &[u8], pos: usize, n: usize) -> (r: u128)
    requires
        n <= 16,
        pos + n <= b@.len(),
    ensures
        r as nat == be_value(b@.subrange(pos as int, pos + n)),
{
    let len = b.len();
    let mut acc: u128 = 0;
    let mut i: usize = 0;
    while i < n
        invariant
            len == b@.len(),
            n <= 16,
            pos + n <= b@.len(),
            i <= n,
            acc as nat == be_value(b@.subrange(pos as int, pos + i)),
        decreases n - i,
    {
        let ghost s = b@.subrange(pos as int, pos + i);
        let ghost t = b@.subrange(pos as int, pos + i + 1);
        assert(t.drop_last() =~= s);
        proof {
            lemma_be_value_bound(s);
            lemma_pow256_16();
            lemma_pow256_le(i as nat, 15);
            let p = pow256(i as nat);
            assert(acc * 256 + 255 < 0x1_0000_0000_0000_0000_0000_0000_0000_0000) by (nonlinear_arith)
                requires
                    acc < p,
                    p <= pow256(15),
                    pow256(16) == 256 * pow256(15),
                    pow256(16) == 0x1_0000_0000_0000_0000_0000_0000_0000_0000,
            ;
        }
        acc = acc * 256 + b[pos + i] as u128;
        i = i + 1;
    }
    acc
}

proof fn lemma_pow256_le(a: nat, b: nat)
    requires
        a <= b,
    ensures
        pow256(a) <= pow256(b),
    decreases b,
{
    if a < b {
        lemma_pow256_le(a, (b - 1) as nat);
        lemma_pow256_positive((b - 1) as nat);
    }
}

/// Appends `v` to `out` as `n` big-endian bytes.
pub fn append_be(out: &mut Vec<u8>, v: u128, n: usize)
    requires
        1 <= n <= 16,
        (v as nat) < pow256(n as nat),
    ensures
        final(out)@ == old(out)@ + be_encode(v as nat, n as nat),
{
    let ghost start = out@;
    proof {
        lemma_pow256_16();
        lemma_pow256_le((n - 1) as nat, 15);
    }
    let mut d: u128 = 1;
    let mut k: usize = 1;
    while k < n
        invariant
            1 <= k <= n <= 16,
            d as nat == pow256((k - 1) as nat),
            pow256(15) * 256 == 0x1_0000_0000_0000_0000_0000_0000_0000_0000,
        decreases n - k,
    {
        proof {
            lemma_pow256_le((k - 1) as nat, 14);
            assert(pow256(k as nat) == 256 * pow256((k - 1) as nat));
            assert(pow256(15) == 256 * pow256(14));
        }
        d = d * 256;
        k = k + 1;
    }
    let mut i: usize = 0;
    while i < n
        invariant
            n <= 16,
            i <= n,
            i < n ==> d as nat == pow256((n - 1 - i) as nat),
            out@ == start + be_encode(v as nat, n as nat).subrange(0, i as int),
        decreases n - i,
    {
        proof {
            lemma_pow256_positive((n - 1 - i) as nat);
        }
        let byte = ((v / d) % 256) as u8;
        out.push(byte);
        proof {
            assert(out@ =~= start + be_encode(v as nat, n as nat).subrange(0, i + 1));
        }
        if i + 1 < n {
            proof {
                assert(pow256((n - 1 - i) as nat) == 256 * pow256((n - 2 - i) as nat));
            }
            d = d / 256;
        }
        i = i + 1;
    }
    assert(be_encode(v as nat, n as nat).subrange(0, n as int) =~= be_encode(v as nat, n as nat));
}

} // verus!
