//! Little-endian integer fields read out of a raw byte image.

use vstd::prelude::*;

verus! {

/// The integer value of a byte sequence read little-endian: the first byte is
/// the least significant.
pub open spec fn le_value(s: Seq<u8>) -> int
    decreases s.len(),
{
    if s.len() == 0 {
        0
    } else {
        s[0] + 256 * le_value(s.drop_first())
    }
}

/// 256 to the power `n`: the number of values `n` bytes can hold.
pub open spec fn pow256(n: nat) -> int
    decreases n,
{
    if n == 0 {
        1
    } else {
        256 * pow256((n - 1) as nat)
    }
}

pub proof fn lemma_pow256_pos(n: nat)
    ensures
        pow256(n) >= 1,
    decreases n,
{
    if n > 0 {
        lemma_pow256_pos((n - 1) as nat);
    }
}

pub proof fn lemma_pow256_increases(m: nat, n: nat)
    requires
        m <= n,
    ensures
        pow256(m) <= pow256(n),
    decreases n,
{
    if m < n {
        lemma_pow256_increases(m, (n - 1) as nat);
        lemma_pow256_pos((n - 1) as nat);
    }
}

/// A sequence of `n` bytes holds a value below `pow256(n)`.
pub proof fn lemma_le_value_bound(s: Seq<u8>)
    ensures
        0 <= le_value(s) < pow256(s.len()),
    decreases s.len(),
{
    if s.len() > 0 {
        lemma_le_value_bound(s.drop_first());
    }
}

/// Read the `len`-byte little-endian value starting at `off`.
pub fn read_le(bytes: &[u8], off: usize, len: usize) -> (r: u64)
    requires
        len <= 8,
        off + len <= bytes@.len(),
    ensures
        r == le_value(bytes@.subrange(off as int, off + len)),
{
    let n = bytes.len();
    let mut r: u64 = 0;
    let mut i: usize = len;
    proof {
        assert(bytes@.subrange(off + len, off + len) =~= Seq::<u8>::empty());
    }
    while i > 0
        invariant
            i <= len,
            len <= 8,
            off + len <= n,
            n == bytes@.len(),
            r == le_value(bytes@.subrange(off + i, off + len)),
            r < pow256((len - i) as nat),
        decreases i,
    {
        i = i - 1;
        let b = bytes[off + i];
        proof {
            reveal_with_fuel(pow256, 9);
            lemma_pow256_increases((len - i - 1) as nat, 7);
            assert(r * 256 + b < pow256((len - i) as nat)) by {
                assert(r <= pow256((len - i - 1) as nat) - 1);
            }
            let tail = bytes@.subrange(off + i, off + len);
            assert(tail.drop_first() =~= bytes@.subrange(off + i + 1, off + len));
            assert(tail[0] == bytes@[off + i]);
        }
        r = r * 256 + (b as u64);
    }
    r
}

/// Read the two-byte little-endian value starting at `off`.
pub fn read_u16(bytes: &[u8], off: usize) -> (r: u16)
    requires
        off + 2 <= bytes@.len(),
    ensures
        r == le_value(bytes@.subrange(off as int, off + 2)),
{
    let v = read_le(bytes, off, 2);
    proof {
        reveal_with_fuel(pow256, 3);
        lemma_le_value_bound(bytes@.subrange(off as int, off + 2));
    }
    v as u16
}

/// Read the four-byte little-endian value starting at `off`.
pub fn read_u32(bytes: &[u8], off: usize) -> (r: u32)
    requires
        off + 4 <= bytes@.len(),
    ensures
        r == le_value(bytes@.subrange(off as int, off + 4)),
{
    let v = read_le(bytes, off, 4);
    proof {
        reveal_with_fuel(pow256, 5);
        lemma_le_value_bound(bytes@.subrange(off as int, off + 4));
    }
    v as u32
}

/// Read the eight-byte little-endian value starting at `off`.
pub fn read_u64(bytes: &[u8], off: usize) -> (r: u64)
    requires
        off + 8 <= bytes@.len(),
    ensures
        r == le_value(bytes@.subrange(off as int, off + 8)),
{
    read_le(bytes, off, 8)
}

/// The little-endian bytes of the non-negative value `x`, `n` bytes long,
/// least significant first.
pub open spec fn le_bytes(x: int, n: nat) -> Seq<u8> {
    Seq::new(n, |i: int| ((x / pow256(i as nat)) % 256) as u8)
}

/// The eight little-endian bytes of a 64-bit value.
pub open spec fn le_bytes_of(v: u64) -> Seq<u8> {
    le_bytes(v as int, 8)
}

/// Reading `n` little-endian bytes of `x` back gives `x` modulo `pow256(n)`.
pub proof fn lemma_le_value_le_bytes(x: int, n: nat)
    requires
        x >= 0,
    ensures
        le_value(le_bytes(x, n)) == x % pow256(n),
    decreases n,
{
    let s = le_bytes(x, n);
    if n == 0 {
        assert(x % 1 == 0);
    } else {
        let x1 = x / 256;
        lemma_le_value_le_bytes(x1, (n - 1) as nat);
        assert forall|i: int| 0 <= i < n - 1 implies s.drop_first()[i] == le_bytes(
            x1,
            (n - 1) as nat,
        )[i] by {
            lemma_pow256_pos(i as nat);
            lemma_div_div(x, 256, pow256(i as nat));
            assert(pow256((i + 1) as nat) == 256 * pow256(i as nat));
        }
        assert(s.drop_first() =~= le_bytes(x1, (n - 1) as nat));
        assert(s[0] == (x % 256) as u8);
        lemma_pow256_pos((n - 1) as nat);
        vstd::arithmetic::div_mod::lemma_mod_breakdown(x, 256, pow256((n - 1) as nat));
        assert(pow256(n) == 256 * pow256((n - 1) as nat));
    }
}

/// The eight little-endian bytes of `v` read back as a value give `v` again.
pub proof fn lemma_le_bytes_of_value(v: u64)
    ensures
        le_value(le_bytes_of(v)) == v,
{
    lemma_le_value_le_bytes(v as int, 8);
    reveal_with_fuel(pow256, 9);
    assert(pow256(8) == 0x1_0000_0000_0000_0000);
    vstd::arithmetic::div_mod::lemma_small_mod(v as nat, 0x1_0000_0000_0000_0000);
}

/// Write the eight little-endian bytes of `v` at `off`.
pub fn write_le64(bytes: &mut Vec<u8>, off: usize, v: u64)
    requires
        off + 8 <= old(bytes)@.len(),
    ensures
        final(bytes)@.len() == old(bytes)@.len(),
        final(bytes)@.subrange(off as int, off + 8) =~= le_bytes_of(v),
        forall|j: int|
            0 <= j < old(bytes)@.len() && !(off <= j < off + 8) ==> final(bytes)@[j] == old(
                bytes,
            )@[j],
{
    let n = bytes.len();
    let mut i: usize = 0;
    let mut w: u64 = v;
    while i < 8
        invariant
            i <= 8,
            n == bytes@.len(),
            bytes@.len() == old(bytes)@.len(),
            off + 8 <= n,
            w == v as int / pow256(i as nat),
            forall|j: int| 0 <= j < i ==> bytes@[off + j] == le_bytes_of(v)[j],
            forall|j: int|
                0 <= j < old(bytes)@.len() && !(off <= j < off + 8) ==> bytes@[j] == old(
                    bytes,
                )@[j],
        decreases 8 - i,
    {
        proof {
            lemma_pow256_pos(i as nat);
        }
        let b: u8 = (w % 256) as u8;
        assert(b == le_bytes_of(v)[i as int]);
        bytes.set(off + i, b);
        w = w / 256;
        proof {
            lemma_div_div(v as int, pow256(i as nat), 256);
            assert(pow256((i + 1) as nat) == 256 * pow256(i as nat));
            assert(w == v as int / pow256((i + 1) as nat));
        }
        i = i + 1;
    }
    proof {
        assert(bytes@.subrange(off as int, off + 8) =~= le_bytes_of(v));
    }
}

/// Dividing by `b` and then by `c` is dividing by `b * c`, for positive `b`, `c`.
pub proof fn lemma_div_div(x: int, b: int, c: int)
    requires
        x >= 0,
        b > 0,
        c > 0,
    ensures
        (x / b) / c == x / (b * c),
{
    vstd::arithmetic::div_mod::lemma_div_denominator(x, b, c);
}

} // verus!
