//! Little-endian encoding of unsigned integers into byte sequences.
use vstd::prelude::*;

verus! {

/// `256` raised to the power `n`: the number of values that `n` bytes hold.
pub open spec fn pow256(n: nat) -> nat
    decreases n,
{
    if n == 0 {
        1
    } else {
        256 * pow256((n - 1) as nat)
    }
}

/// The value of a little-endian byte sequence: the first byte is the least significant.
pub open spec fn le_value(s: Seq<u8>) -> nat
    decreases s.len(),
{
    if s.len() == 0 {
        0
    } else {
        s[0] as nat + 256 * le_value(s.drop_first())
    }
}

/// The `n` least significant bytes of `v`, least significant first.
pub open spec fn le_bytes(v: nat, n: nat) -> Seq<u8>
    decreases n,
{
    if n == 0 {
        Seq::empty()
    } else {
        seq![(v % 256) as u8] + le_bytes(v / 256, (n - 1) as nat)
    }
}

pub proof fn lemma_pow256_values()
    ensures
        pow256(0) == 1,
        pow256(1) == 0x100,
        pow256(2) == 0x1_0000,
        pow256(4) == 0x1_0000_0000,
        pow256(8) == 0x1_0000_0000_0000_0000,
{
    reveal_with_fuel(pow256, 9);
}

pub proof fn lemma_pow256_monotonic(a: nat, b: nat)
    requires
        a <= b,
    ensures
        pow256(a) <= pow256(b),
        pow256(a) >= 1,
    decreases b,
{
    if b > a {
        lemma_pow256_monotonic(a, (b - 1) as nat);
    } else if a > 0 {
        lemma_pow256_monotonic((a - 1) as nat, (a - 1) as nat);
    }
}

pub proof fn lemma_le_bytes_len(v: nat, n: nat)
    ensures
        le_bytes(v, n).len() == n,
    decreases n,
{
    if n > 0 {
        lemma_le_bytes_len(v / 256, (n - 1) as nat);
    }
}

/// Decoding what `le_bytes` encoded gives the value back, when it fits in `n` bytes.
pub proof fn lemma_le_value_of_bytes(v: nat, n: nat)
    requires
        v < pow256(n),
    ensures
        le_value(le_bytes(v, n)) == v,
        le_bytes(v, n).len() == n,
    decreases n,
{
    lemma_le_bytes_len(v, n);
    if n > 0 {
        let rest = le_bytes(v / 256, (n - 1) as nat);
        assert(v / 256 < pow256((n - 1) as nat)) by (nonlinear_arith)
            requires
                v < 256 * pow256((n - 1) as nat),
        ;
        lemma_le_value_of_bytes(v / 256, (n - 1) as nat);
        assert(le_bytes(v, n).drop_first() =~= rest);
    }
}

/// The value of `n` bytes is below `256^n`.
pub proof fn lemma_le_value_bound(s: Seq<u8>)
    ensures
        le_value(s) < pow256(s.len()),
    decreases s.len(),
{
    if s.len() > 0 {
        lemma_le_value_bound(s.drop_first());
        let r = le_value(s.drop_first());
        let p = pow256((s.len() - 1) as nat);
        assert(s[0] as nat + 256 * r < 256 * p) by (nonlinear_arith)
            requires
                r < p,
                s[0] < 256,
        ;
    }
}

/// Encoding the value of a byte sequence in as many bytes gives the sequence back.
pub proof fn lemma_le_bytes_of_value(s: Seq<u8>)
    ensures
        le_bytes(le_value(s), s.len()) == s,
    decreases s.len(),
{
    if s.len() > 0 {
        let v = le_value(s);
        let r = le_value(s.drop_first());
        assert(v % 256 == s[0] as nat && v / 256 == r) by (nonlinear_arith)
            requires
                v == s[0] as nat + 256 * r,
                s[0] < 256,
        ;
        lemma_le_bytes_of_value(s.drop_first());
        assert(le_bytes(v, s.len()) =~= s);
    }
}

/// Writes the `n` little-endian bytes of `v` at `pos`, leaving the other bytes alone.
pub fn put_le(out: &mut [u8], pos: usize, v: u64, n: usize)
    requires
        pos + n <= old(out)@.len(),
        v < pow256(n as nat),
    ensures
        final(out)@.len() == old(out)@.len(),
        final(out)@.subrange(pos as int, pos + n) == le_bytes(v as nat, n as nat),
        forall|j: int|
            0 <= j < old(out)@.len() && !(pos <= j < pos + n) ==> #[trigger] final(out)@[j]
                == old(out)@[j],
{
    let ghost full = le_bytes(v as nat, n as nat);
    proof {
        lemma_le_bytes_len(v as nat, n as nat);
    }
    let len = out.len();
    let mut cur: u64 = v;
    let mut i: usize = 0;
    while i < n
        invariant
            i <= n,
            pos + n <= out@.len(),
            len == out@.len(),
            out@.len() == old(out)@.len(),
            full == le_bytes(v as nat, n as nat),
            full.len() == n,
            full.subrange(i as int, n as int) == le_bytes(cur as nat, (n - i) as nat),
            forall|j: int| 0 <= j < i ==> #[trigger] out@[pos + j] == full[j],
            forall|j: int|
                0 <= j < old(out)@.len() && !(pos <= j < pos + i) ==> #[trigger] out@[j]
                    == old(out)@[j],
        decreases n - i,
    {
        let b: u8 = (cur % 256) as u8;
        proof {
            let tail = le_bytes(cur as nat, (n - i) as nat);
            lemma_le_bytes_len((cur / 256) as nat, (n - i - 1) as nat);
            assert(tail[0] == b);
            assert(full[i as int] == full.subrange(i as int, n as int)[0]);
            assert(full.subrange(i + 1, n as int) =~= tail.subrange(1, (n - i) as int));
            assert(tail.subrange(1, (n - i) as int) =~= le_bytes(
                (cur / 256) as nat,
                (n - i - 1) as nat,
            ));
        }
        out[pos + i] = b;
        cur = cur / 256;
        i = i + 1;
    }
    assert forall|k: int| 0 <= k < n implies #[trigger] out@.subrange(pos as int, pos + n)[k]
        == full[k] by {
        assert(out@[pos + k] == full[k]);
    }
    assert(out@.subrange(pos as int, pos + n) =~= full);
}

/// Reads the little-endian value of the `n` bytes at `pos`.
pub fn get_le(bytes: &[u8], pos: usize, n: usize) -> (v: u64)
    requires
        pos + n <= bytes@.len(),
        n <= 8,
    ensures
        v as nat == le_value(bytes@.subrange(pos as int, pos + n)),
{
    let len = bytes.len();
    let mut acc: u64 = 0;
    let mut i: usize = n;
    proof {
        lemma_pow256_values();
    }
    while i > 0
        invariant
            i <= n <= 8,
            pos + n <= bytes@.len(),
            len == bytes@.len(),
            acc as nat == le_value(bytes@.subrange(pos + i, pos + n)),
            acc < pow256((n - i) as nat),
            pow256(8) == 0x1_0000_0000_0000_0000,
        decreases i,
    {
        let b = bytes[pos + i - 1];
        proof {
            let s = bytes@.subrange(pos + i - 1, pos + n);
            assert(s.drop_first() =~= bytes@.subrange(pos + i, pos + n));
            lemma_pow256_monotonic((n - i + 1) as nat, 8);
            assert(acc * 256 + b < pow256((n - i + 1) as nat));
        }
        acc = acc * 256 + b as u64;
        i = i - 1;
    }
    acc
}

} // verus!
