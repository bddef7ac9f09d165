//! Little-endian byte encodings of unsigned integers, and padding to an alignment.

use vstd::prelude::*;

verus! {

/// `256` raised to the power `n`: the number of distinct values of `n` bytes.
pub open spec fn radix(n: nat) -> nat
    decreases n,
{
    if n == 0 {
        1
    } else {
        256 * radix((n - 1) as nat)
    }
}

/// The `n` little-endian bytes of `x` (the low `n` bytes, least significant first).
pub open spec fn le_bytes(x: nat, n: nat) -> Seq<u8>
    decreases n,
{
    if n == 0 {
        seq![]
    } else {
        seq![(x % 256) as u8] + le_bytes(x / 256, (n - 1) as nat)
    }
}

/// The number whose little-endian bytes are `s`.
pub open spec fn le_value(s: Seq<u8>) -> nat
    decreases s.len(),
{
    if s.len() == 0 {
        0
    } else {
        s[0] as nat + 256 * le_value(s.drop_first())
    }
}

/// `n` rounded up to the next multiple of `align`.
pub open spec fn padded(n: nat, align: nat) -> nat
    recommends
        align > 0,
{
    n + ((align - n % align) % (align as int)) as nat
}

pub proof fn lemma_radix_positive(n: nat)
    ensures
        radix(n) >= 1,
    decreases n,
{
    if n > 0 {
        lemma_radix_positive((n - 1) as nat);
    }
}

pub proof fn lemma_radix_monotonic(m: nat, n: nat)
    requires
        m <= n,
    ensures
        radix(m) <= radix(n),
    decreases n,
{
    if m < n {
        lemma_radix_monotonic(m, (n - 1) as nat);
        lemma_radix_positive((n - 1) as nat);
    }
}

pub proof fn lemma_radix_16()
    ensures
        radix(16) == 0x1_0000_0000_0000_0000_0000_0000_0000_0000,
        radix(8) == 0x1_0000_0000_0000_0000,
        radix(4) == 0x1_0000_0000,
        radix(2) == 0x1_0000,
        radix(1) == 0x100,
{
    reveal_with_fuel(radix, 17);
}

pub proof fn lemma_le_bytes_len(x: nat, n: nat)
    ensures
        le_bytes(x, n).len() == n,
    decreases n,
{
    if n > 0 {
        lemma_le_bytes_len(x / 256, (n - 1) as nat);
    }
}

/// Reading back the little-endian bytes of a number that fits in them gives the number.
pub proof fn lemma_le_roundtrip(x: nat, n: nat)
    requires
        x < radix(n),
    ensures
        le_value(le_bytes(x, n)) == x,
    decreases n,
{
    if n > 0 {
        let s = le_bytes(x, n);
        lemma_le_roundtrip(x / 256, (n - 1) as nat);
        assert(s.drop_first() =~= le_bytes(x / 256, (n - 1) as nat));
    } else {
        assert(x == 0);
    }
}

/// A number read from `n` bytes is less than `radix(n)`.
pub proof fn lemma_le_value_bound(s: Seq<u8>)
    ensures
        le_value(s) < radix(s.len()),
    decreases s.len(),
{
    if s.len() > 0 {
        lemma_le_value_bound(s.drop_first());
    }
}

/// `n` rounded up to a multiple of `align`.
pub fn padded_len(n: usize, align: usize) -> (r: usize)
    requires
        align > 0,
        padded(n as nat, align as nat) <= usize::MAX,
    ensures
        r == padded(n as nat, align as nat),
{
    let pad = (align - (n % align)) % align;
    n + pad
}

/// Writes the `n` little-endian bytes of `x` at `offset`.
pub fn write_le(bytes: &mut [u8], offset: usize, x: u128, n: usize)
    requires
        n <= 16,
        offset + n <= old(bytes)@.len(),
        (x as nat) < radix(n as nat),
    ensures
        final(bytes)@ == old(bytes)@.take(offset as int) + le_bytes(x as nat, n as nat) + old(
            bytes,
        )@.skip(offset + n),
{
    let ghost orig = bytes@;
    let len = bytes.len();
    let mut v = x;
    let mut i: usize = 0;
    proof {
        lemma_le_bytes_len(x as nat, n as nat);
        assert(le_bytes(x as nat, n as nat) =~= orig.subrange(offset as int, offset as int) + le_bytes(v as nat, n as nat));
    }
    while i < n
        invariant
            i <= n,
            n <= 16,
            offset + n <= orig.len(),
            bytes@.len() == orig.len(),
            len == orig.len(),
            le_bytes(x as nat, n as nat) == bytes@.subrange(offset as int, offset + i) + le_bytes(v as nat, (n - i) as nat),
            forall|k: int| 0 <= k < offset ==> bytes@[k] == orig[k],
            forall|k: int| offset + n <= k < orig.len() ==> bytes@[k] == orig[k],
        decreases n - i,
    {
        let ghost before = bytes@;
        bytes[offset + i] = (v % 256) as u8;
        proof {
            let rest = le_bytes(v as nat, (n - i) as nat);
            assert(rest =~= seq![(v as nat % 256) as u8] + le_bytes(v as nat / 256, (n - i - 1) as nat));
            assert(bytes@.subrange(offset as int, offset + i + 1) =~= before.subrange(offset as int, offset + i) + seq![(v as nat % 256) as u8]);
        }
        v = v / 256;
        i = i + 1;
    }
    proof {
        lemma_le_bytes_len(x as nat, n as nat);
        assert(bytes@ =~= orig.take(offset as int) + le_bytes(x as nat, n as nat) + orig.skip(offset + n));
    }
}

/// Reads the number whose `n` little-endian bytes start at `offset`.
pub fn read_le(bytes: &[u8], offset: usize, n: usize) -> (r: u128)
    requires
        n <= 16,
        offset + n <= bytes@.len(),
    ensures
        r as nat == le_value(bytes@.subrange(offset as int, offset + n)),
{
    let len = bytes.len();
    let mut v: u128 = 0;
    let mut i: usize = n;
    proof {
        assert(bytes@.subrange(offset + n, offset + n).len() == 0);
    }
    while i > 0
        invariant
            i <= n,
            n <= 16,
            offset + n <= bytes@.len(),
            len == bytes@.len(),
            v as nat == le_value(bytes@.subrange(offset + i, offset + n)),
        decreases i,
    {
        let ghost s = bytes@.subrange(offset + i - 1, offset + n);
        proof {
            assert(s.drop_first() =~= bytes@.subrange(offset + i, offset + n));
            lemma_le_value_bound(bytes@.subrange(offset + i, offset + n));
            lemma_radix_monotonic((n - i) as nat, 15);
            lemma_radix_16();
            reveal_with_fuel(radix, 16);
        }
        v = v * 256 + bytes[offset + i - 1] as u128;
        i = i - 1;
    }
    v
}

} // verus!
