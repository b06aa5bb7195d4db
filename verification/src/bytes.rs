//! Little-endian numbers in a sequence of bytes.
use vstd::arithmetic::div_mod::lemma_div_denominator;
use vstd::arithmetic::power::{lemma_pow0, lemma_pow_positive, pow};
use vstd::prelude::*;

verus! {

/// The number that `s` stands for, the least significant byte first.
pub open spec fn le_value(s: Seq<u8>) -> nat
    decreases s.len(),
{
    if s.len() == 0 {
        0
    } else {
        s[0] as nat + 256 * le_value(s.skip(1))
    }
}

/// The `n` low bytes of `v`, the least significant byte first.
pub open spec fn le_bytes(v: nat, n: nat) -> Seq<u8>
    decreases n,
{
    if n == 0 {
        Seq::empty()
    } else {
        seq![(v % 256) as u8] + le_bytes(v / 256, (n - 1) as nat)
    }
}

/// The first number that `n` bytes cannot hold.
pub open spec fn le_bound(n: nat) -> nat
    decreases n,
{
    if n == 0 {
        1
    } else {
        256 * le_bound((n - 1) as nat)
    }
}

/// `s` with `patch` in place of what stood at `off`.
pub open spec fn overwritten(s: Seq<u8>, off: int, patch: Seq<u8>) -> Seq<u8> {
    Seq::new(
        s.len(),
        |i: int|
            if off <= i < off + patch.len() {
                patch[i - off]
            } else {
                s[i]
            },
    )
}

pub proof fn lemma_le_value_bound(s: Seq<u8>)
    ensures
        le_value(s) < le_bound(s.len()),
    decreases s.len(),
{
    if s.len() > 0 {
        lemma_le_value_bound(s.skip(1));
    }
}

pub proof fn lemma_le_bound_values()
    ensures
        le_bound(0) == 1,
        le_bound(4) == 0x1_0000_0000,
        le_bound(8) == 0x1_0000_0000_0000_0000,
{
    reveal_with_fuel(le_bound, 9);
}

pub proof fn lemma_le_bound_grows(i: nat, j: nat)
    requires
        i <= j,
    ensures
        0 < le_bound(i) <= le_bound(j),
    decreases j,
{
    if j > 0 {
        if i < j {
            lemma_le_bound_grows(i, (j - 1) as nat);
        } else {
            lemma_le_bound_grows((j - 1) as nat, (j - 1) as nat);
        }
    }
}

pub proof fn lemma_le_bytes_len(v: nat, n: nat)
    ensures
        le_bytes(v, n).len() == n,
    decreases n,
{
    if n > 0 {
        lemma_le_bytes_len(v / 256, (n - 1) as nat);
    }
}

/// Bytes that were written read back as the number, if it fits in them.
pub proof fn law_value_of_bytes(v: nat, n: nat)
    requires
        v < le_bound(n),
    ensures
        le_bytes(v, n).len() == n,
        le_value(le_bytes(v, n)) == v,
    decreases n,
{
    if n > 0 {
        law_value_of_bytes(v / 256, (n - 1) as nat);
        assert(le_bytes(v, n).skip(1) == le_bytes(v / 256, (n - 1) as nat));
    }
}

/// A number that was read is written back as the same bytes.
pub proof fn law_bytes_of_value(s: Seq<u8>)
    ensures
        le_bytes(le_value(s), s.len()) == s,
    decreases s.len(),
{
    if s.len() > 0 {
        law_bytes_of_value(s.skip(1));
        assert(le_value(s) / 256 == le_value(s.skip(1)));
        assert(le_value(s) % 256 == s[0]);
        assert(s == seq![s[0]] + s.skip(1));
    }
}

/// Reads the `n` bytes at `off` as a number.
pub fn le_at(bytes: &[u8], off: usize, n: usize) -> (v: u64)
    requires
        n <= 8,
        off + n <= bytes@.len(),
    ensures
        v == le_value(bytes@.subrange(off as int, off + n)),
        v < le_bound(n as nat),
{
    let mut v: u64 = 0;
    let mut i: usize = n;
    let ghost end = off + n;
    assert(bytes@.len() == bytes.len());
    while i > 0
        invariant
            i <= n <= 8,
            off + n <= bytes@.len(),
            end == off + n <= usize::MAX,
            v == le_value(bytes@.subrange(off + i, end)),
            v < le_bound((n - i) as nat),
        decreases i,
    {
        i = i - 1;
        proof {
            let s = bytes@.subrange(off + i, end);
            assert(s.skip(1) == bytes@.subrange(off + i + 1, end));
            lemma_le_value_bound(s);
            lemma_le_bound_grows((n - i) as nat, 8);
            lemma_le_bound_values();
        }
        v = bytes[off + i] as u64 + 256 * v;
    }
    v
}

/// One byte stands for itself, and bytes that follow others count for a power of 256 each: this says
/// of every sequence what number it stands for.
pub proof fn law_value_of_parts(a: Seq<u8>, b: Seq<u8>, x: u8)
    ensures
        le_value(seq![x]) == x,
        le_value(a + b) == le_value(a) + pow(256, a.len()) * le_value(b),
    decreases a.len(),
{
    assert(seq![x].skip(1) == Seq::<u8>::empty());
    assert(le_value(seq![x].skip(1)) == 0);
    lemma_pow0(256);
    if a.len() == 0 {
        assert(a + b == b);
        assert(1 * le_value(b) == le_value(b));
    } else {
        law_value_of_parts(a.skip(1), b, x);
        assert((a + b).skip(1) == a.skip(1) + b);
        let p = pow(256, (a.len() - 1) as nat);
        let v = le_value(b) as int;
        assert(pow(256, a.len()) == 256 * p) by {
            reveal(pow);
        }
        assert((256 * p) * v == 256 * (p * v)) by (nonlinear_arith);
    }
}

/// The number in four bytes and in eight, byte by byte.
pub proof fn law_value_byte_by_byte(s: Seq<u8>)
    ensures
        s.len() == 4 ==> le_value(s) == s[0] + 0x100 * s[1] + 0x1_0000 * s[2] + 0x100_0000 * s[3],
        s.len() == 8 ==> le_value(s) == s[0] + 0x100 * s[1] + 0x1_0000 * s[2] + 0x100_0000 * s[3]
            + 0x1_0000_0000 * s[4] + 0x100_0000_0000 * s[5] + 0x1_0000_0000_0000 * s[6]
            + 0x100_0000_0000_0000 * s[7],
{
    if s.len() == 4 || s.len() == 8 {
        let s1 = s.skip(1);
        let s2 = s1.skip(1);
        let s3 = s2.skip(1);
        let s4 = s3.skip(1);
        assert(le_value(s) == s[0] + 256 * le_value(s1));
        assert(le_value(s1) == s[1] + 256 * le_value(s2));
        assert(le_value(s2) == s[2] + 256 * le_value(s3));
        assert(le_value(s3) == s[3] + 256 * le_value(s4));
        if s.len() == 8 {
            let s5 = s4.skip(1);
            let s6 = s5.skip(1);
            let s7 = s6.skip(1);
            let s8 = s7.skip(1);
            assert(le_value(s4) == s[4] + 256 * le_value(s5));
            assert(le_value(s5) == s[5] + 256 * le_value(s6));
            assert(le_value(s6) == s[6] + 256 * le_value(s7));
            assert(le_value(s7) == s[7] + 256 * le_value(s8));
            assert(le_value(s8) == 0);
        } else {
            assert(le_value(s4) == 0);
        }
    }
}

/// The byte at `i` of a number is `v / 256^i % 256`.
pub proof fn law_bytes_one_by_one(v: nat, n: nat, i: nat)
    ensures
        le_bytes(v, n).len() == n,
        i < n ==> le_bytes(v, n)[i as int] as int == v as int / pow(256, i) % 256,
    decreases n,
{
    lemma_le_bytes_len(v, n);
    if i < n {
        if i == 0 {
            lemma_pow0(256);
            assert(v as int / 1 == v);
        } else {
            let j = (i - 1) as nat;
            law_bytes_one_by_one(v / 256, (n - 1) as nat, j);
            lemma_pow_positive(256, j);
            assert(pow(256, i) == 256 * pow(256, j)) by {
                reveal(pow);
            }
            lemma_div_denominator(v as int, 256, pow(256, j));
            assert(le_bytes(v, n)[i as int] == le_bytes(v / 256, (n - 1) as nat)[j as int]);
        }
    }
}

/// Overwriting keeps the length, puts the new bytes where they belong, and keeps all the others.
pub proof fn law_overwriting(s: Seq<u8>, off: int, patch: Seq<u8>)
    ensures
        overwritten(s, off, patch).len() == s.len(),
        forall|i: int|
            0 <= i < s.len() && off <= i < off + patch.len() ==> #[trigger] overwritten(
                s,
                off,
                patch,
            )[i] == patch[i - off],
        forall|i: int|
            0 <= i < s.len() && !(off <= i < off + patch.len()) ==> #[trigger] overwritten(
                s,
                off,
                patch,
            )[i] == s[i],
{
}

} // verus!
