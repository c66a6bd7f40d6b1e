//! Fixed-width big-endian integer fields, the building blocks of every
//! packet: a mathematical model of base-256 encoding, executable readers
//! and writers against that model, and the round-trip lemmas the packet
//! codec relies on.

use vstd::arithmetic::div_mod::{lemma_div_denominator, lemma_fundamental_div_mod};
use vstd::prelude::*;

verus! {

/// 256 to the power `len`: the number of values a `len`-byte field can hold.
pub open spec fn pow256(len: nat) -> nat
    decreases len,
{
    if len == 0 {
        1
    } else {
        256 * pow256((len - 1) as nat)
    }
}

/// The `len`-byte big-endian encoding of `n % pow256(len)`, most
/// significant byte first.
pub open spec fn spec_be_bytes(n: nat, len: nat) -> Seq<u8>
    decreases len,
{
    if len == 0 {
        Seq::empty()
    } else {
        spec_be_bytes(n / 256, (len - 1) as nat).push((n % 256) as u8)
    }
}

/// The unsigned value that a big-endian byte sequence denotes.
pub open spec fn spec_be_val(s: Seq<u8>) -> nat
    decreases s.len(),
{
    if s.len() == 0 {
        0
    } else {
        spec_be_val(s.drop_last()) * 256 + s.last() as nat
    }
}

/// An encoding has exactly the requested width.
pub proof fn lemma_be_bytes_len(n: nat, len: nat)
    ensures
        spec_be_bytes(n, len).len() == len,
    decreases len,
{
    if len > 0 {
        lemma_be_bytes_len(n / 256, (len - 1) as nat);
    }
}

/// Decoding inverts encoding for values that fit in the field.
pub proof fn lemma_be_val_of_bytes(n: nat, len: nat)
    requires
        n < pow256(len),
    ensures
        spec_be_val(spec_be_bytes(n, len)) == n,
    decreases len,
{
    if len > 0 {
        let s = spec_be_bytes(n, len);
        lemma_be_bytes_len(n / 256, (len - 1) as nat);
        assert(s.drop_last() =~= spec_be_bytes(n / 256, (len - 1) as nat));
        assert(n / 256 < pow256((len - 1) as nat)) by {
            lemma_fundamental_div_mod(n as int, 256);
        }
        lemma_be_val_of_bytes(n / 256, (len - 1) as nat);
        lemma_fundamental_div_mod(n as int, 256);
    }
}

/// A byte sequence denotes a value that fits in its own width, and
/// encoding that value gives the sequence back.
pub proof fn lemma_be_bytes_of_val(s: Seq<u8>)
    ensures
        spec_be_val(s) < pow256(s.len()),
        spec_be_bytes(spec_be_val(s), s.len()) == s,
    decreases s.len(),
{
    if s.len() > 0 {
        lemma_be_bytes_of_val(s.drop_last());
        let v = spec_be_val(s);
        let front = spec_be_val(s.drop_last());
        assert(v == front * 256 + s.last());
        assert(v < pow256(s.len())) by {
            assert(front <= pow256((s.len() - 1) as nat) - 1);
            assert(front * 256 <= (pow256((s.len() - 1) as nat) - 1) * 256) by (nonlinear_arith)
                requires
                    front <= pow256((s.len() - 1) as nat) - 1,
            ;
        }
        assert(v / 256 == front && v % 256 == s.last()) by {
            vstd::arithmetic::div_mod::lemma_fundamental_div_mod_converse(
                v as int,
                256,
                front as int,
                s.last() as int,
            );
        }
        assert(spec_be_bytes(v, s.len()) =~= s);
    } else {
        assert(spec_be_bytes(0, 0) =~= s);
    }
}

/// Byte `k` of an encoding, counted from the most significant end, is
/// digit `len - 1 - k` of the value in base 256.
pub proof fn lemma_be_bytes_index(n: nat, len: nat, k: int)
    requires
        0 <= k < len,
    ensures
        spec_be_bytes(n, len).len() == len,
        spec_be_bytes(n, len)[k] == (n / pow256((len - 1 - k) as nat)) % 256,
    decreases len,
{
    lemma_be_bytes_len(n, len);
    reveal_with_fuel(pow256, 2);
    if k == len - 1 {
        assert(pow256(0) == 1);
        assert(n / pow256(0) == n) by {
            vstd::arithmetic::div_mod::lemma_div_basics(n as int);
        }
    } else {
        lemma_be_bytes_index(n / 256, (len - 1) as nat, k);
        let p = pow256((len - 2 - k) as nat);
        lemma_pow256_pos((len - 2 - k) as nat);
        assert((n / 256) / p == n / (256 * p)) by {
            lemma_div_denominator(n as int, 256, p as int);
        }
        assert(pow256((len - 1 - k) as nat) == 256 * p);
    }
}

/// The executable counterpart of `pow256`, for field widths up to eight
/// bytes.
pub fn pow256_exec(len: usize) -> (r: u64)
    requires
        len <= 8,
    ensures
        if len < 8 { r == pow256(len as nat) } else { r == 0 },
{
    if len == 8 {
        return 0;
    }
    let mut r: u64 = 1;
    let mut i: usize = 0;
    while i < len
        invariant
            i <= len,
            len < 8,
            r == pow256(i as nat),
        decreases len - i,
    {
        proof {
            lemma_pow256_bound(i as nat, 6);
            assert(pow256((i + 1) as nat) == 256 * pow256(i as nat));
        }
        r = r * 256;
        i = i + 1;
    }
    r
}

/// `pow256` is never zero.
pub proof fn lemma_pow256_pos(len: nat)
    ensures
        pow256(len) >= 1,
    decreases len,
{
    if len > 0 {
        lemma_pow256_pos((len - 1) as nat);
    }
}

/// `pow256` is monotone in the exponent, and bounded for small exponents.
pub proof fn lemma_pow256_bound(len: nat, cap: nat)
    requires
        len <= cap,
        cap <= 8,
    ensures
        pow256(len) <= pow256(cap),
        pow256(0) == 1,
        pow256(1) == 0x100,
        pow256(2) == 0x1_0000,
        pow256(3) == 0x100_0000,
        pow256(4) == 0x1_0000_0000,
        pow256(5) == 0x100_0000_0000,
        pow256(6) == 0x1_0000_0000_0000,
        pow256(7) == 0x100_0000_0000_0000,
        pow256(8) == 0x1_0000_0000_0000_0000,
        pow256(cap) <= 0x1_0000_0000_0000_0000,
    decreases cap,
{
    reveal_with_fuel(pow256, 9);
    assert(pow256(1) == 256);
    assert(pow256(2) == 0x1_0000);
    assert(pow256(3) == 0x100_0000);
    assert(pow256(4) == 0x1_0000_0000);
    assert(pow256(5) == 0x100_0000_0000);
    assert(pow256(6) == 0x1_0000_0000_0000);
    assert(pow256(7) == 0x100_0000_0000_0000);
    assert(pow256(8) == 0x1_0000_0000_0000_0000);
    if len < cap {
        lemma_pow256_bound(len, (cap - 1) as nat);
        assert(pow256(cap) == 256 * pow256((cap - 1) as nat));
    }
}

/// Read an `n`-byte big-endian unsigned field starting at `at`.
pub fn read_be(buf: &[u8], at: usize, n: usize) -> (r: u64)
    requires
        n <= 8,
        at + n <= buf@.len(),
    ensures
        r == spec_be_val(buf@.subrange(at as int, (at + n) as int)),
{
    let blen: usize = buf.len();
    let mut v: u64 = 0;
    let mut i: usize = 0;
    while i < n
        invariant
            i <= n,
            n <= 8,
            at + n <= blen,
            blen == buf@.len(),
            v == spec_be_val(buf@.subrange(at as int, (at + i) as int)),
            v < pow256(i as nat),
        decreases n - i,
    {
        proof {
            lemma_pow256_bound(i as nat, 7);
            assert(pow256((i + 1) as nat) == 256 * pow256(i as nat));
            assert(buf@.subrange(at as int, (at + i + 1) as int).drop_last() =~= buf@.subrange(
                at as int,
                (at + i) as int,
            ));
            assert(buf@.subrange(at as int, (at + i + 1) as int).last() == buf@[at + i]);
        }
        v = v * 256 + (buf[at + i] as u64);
        i = i + 1;
    }
    v
}

/// Append the `n`-byte big-endian encoding of `x` to `out`.
pub fn write_be(out: &mut Vec<u8>, x: u64, n: usize)
    requires
        n <= 8,
        (x as nat) < pow256(n as nat),
    ensures
        final(out)@ == old(out)@ + spec_be_bytes(x as nat, n as nat),
{
    proof {
        lemma_be_bytes_len(x as nat, n as nat);
    }
    let mut i: usize = 0;
    while i < n
        invariant
            i <= n,
            n <= 8,
            (x as nat) < pow256(n as nat),
            out@ == old(out)@ + spec_be_bytes(x as nat, n as nat).subrange(0, i as int),
        decreases n - i,
    {
        proof {
            lemma_be_bytes_len(x as nat, n as nat);
            lemma_be_bytes_index(x as nat, n as nat, i as int);
            lemma_pow256_bound((n - 1 - i) as nat, 7);
            lemma_pow256_pos((n - 1 - i) as nat);
        }
        let p = pow256_exec(n - 1 - i);
        let b = ((x / p) % 256) as u8;
        out.push(b);
        proof {
            assert(spec_be_bytes(x as nat, n as nat).subrange(0, i + 1) =~= spec_be_bytes(
                x as nat,
                n as nat,
            ).subrange(0, i as int).push(b));
        }
        i = i + 1;
    }
    proof {
        assert(spec_be_bytes(x as nat, n as nat).subrange(0, n as int) =~= spec_be_bytes(
            x as nat,
            n as nat,
        ));
    }
}

} // verus!
