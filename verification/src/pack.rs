//! The packing format: values laid out byte by byte in a buffer, each field
//! padded to a multiple of the alignment, numbers in little-endian order.

use vstd::prelude::*;
use crate::bytes::{radix, le_bytes, le_value, padded, lemma_le_bytes_len, lemma_le_roundtrip, lemma_le_value_bound, lemma_radix_16, padded_len, write_le, read_le};

verus! {

/// A value that can be written into a byte buffer and read back from it.
///
/// The view of a value determines what is written; `packed_len` bytes are
/// reserved for it at the front of the buffer, some of which may be padding
/// that `pack` leaves untouched.
pub trait Pack: View + Sized {
    /// The number of bytes reserved for a value with view `v` at alignment `align`.
    spec fn packed_len(v: Self::V, align: nat) -> nat;

    /// Whether `pack` accepts the value for a buffer of `room` bytes.
    spec fn can_pack(v: Self::V, align: nat, room: nat) -> bool;

    /// The buffer that `pack` leaves behind, given the buffer `buf` it started with.
    spec fn packed(v: Self::V, align: nat, buf: Seq<u8>) -> Seq<u8>;

    /// Whether `unpack` accepts the buffer `buf`.
    spec fn can_unpack(buf: Seq<u8>, align: nat) -> bool;

    /// The view of the value that `unpack` reads from the front of `buf`.
    spec fn unpacked(buf: Seq<u8>, align: nat) -> Self::V;

    /// Packing keeps the buffer's length and leaves every byte past the
    /// reserved ones as it was.
    proof fn lemma_packed_frame(v: Self::V, align: nat, buf: Seq<u8>)
        requires
            align > 0,
            Self::can_pack(v, align, buf.len()),
        ensures
            Self::packed(v, align, buf).len() == buf.len(),
            forall|i: int|
                Self::packed_len(v, align) <= i < buf.len() ==> #[trigger] Self::packed(
                    v,
                    align,
                    buf,
                )[i] == buf[i],
    ;

    /// Unpacking a buffer whose reserved bytes are those that packing `v`
    /// wrote gives `v` back, whatever follows them and whatever the buffer
    /// held before.
    proof fn lemma_pack_unpack(v: Self::V, align: nat, buf: Seq<u8>, later: Seq<u8>)
        requires
            align > 0,
            Self::can_pack(v, align, buf.len()),
            Self::packed_len(v, align) <= buf.len(),
            Self::packed_len(v, align) <= later.len(),
            later.take(Self::packed_len(v, align) as int) == Self::packed(v, align, buf).take(
                Self::packed_len(v, align) as int,
            ),
        ensures
            Self::can_unpack(later, align),
            Self::unpacked(later, align) == v,
    ;

    /// Writes the value at the front of `bytes`.
    fn pack(&self, bytes: &mut [u8], align: usize)
        requires
            align > 0,
            Self::can_pack(self@, align as nat, old(bytes)@.len()),
        ensures
            final(bytes)@ == Self::packed(self@, align as nat, old(bytes)@),
    ;

    /// Reads a value from the front of `bytes`.
    fn unpack(bytes: &[u8], align: usize) -> (v: Self)
        requires
            align > 0,
            Self::can_unpack(bytes@, align as nat),
        ensures
            v@ == Self::unpacked(bytes@, align as nat),
    ;

    /// The number of bytes reserved for the value at alignment `align`.
    fn bytes(&self, align: usize) -> (n: usize)
        requires
            align > 0,
            Self::packed_len(self@, align as nat) <= usize::MAX,
        ensures
            n == Self::packed_len(self@, align as nat),
    ;
}

/// The buffer after writing the `size` little-endian bytes of `x` at its front.
pub open spec fn prim_packed(x: nat, size: nat, buf: Seq<u8>) -> Seq<u8> {
    le_bytes(x, size) + buf.skip(size as int)
}

/// The number held by the first `size` bytes of `buf`.
pub open spec fn prim_read(buf: Seq<u8>, size: nat) -> nat {
    le_value(buf.take(size as int))
}

/// The number in `0..m` that stands for `v` (two's complement for negative `v`).
pub open spec fn unsigned_of(v: int, m: nat) -> nat {
    if v < 0 {
        (v + m) as nat
    } else {
        v as nat
    }
}

/// The number that `u` stands for in two's complement modulo `m`.
pub open spec fn signed_of(u: nat, m: nat) -> int {
    if u >= m / 2 {
        u - m
    } else {
        u as int
    }
}

pub proof fn lemma_padded_bounds(n: nat, align: nat)
    requires
        align > 0,
    ensures
        n <= padded(n, align) < n + align,
        padded(n, align) % align == 0,
{
    let r = n % align;
    vstd::arithmetic::div_mod::lemma_mod_bound(n as int, align as int);
    assert(0 <= r < align);
    if r == 0 {
        vstd::arithmetic::div_mod::lemma_mod_self_0(align as int);
        assert((align - r) % (align as int) == 0);
    } else {
        vstd::arithmetic::div_mod::lemma_small_mod((align - r) as nat, align);
        assert((align - r) % (align as int) == align - r);
        assert((n + (align - r)) % (align as int) == 0) by {
            vstd::arithmetic::div_mod::lemma_fundamental_div_mod(n as int, align as int);
            vstd::arithmetic::div_mod::lemma_mod_multiples_basic(n as int / align as int + 1, align as int);
            assert(n + (align - r) == (n as int / align as int + 1) * align) by (nonlinear_arith)
                requires n == align * (n as int / align as int) + r;
        }
    }
}

proof fn lemma_prim_frame(x: nat, size: nat, align: nat, buf: Seq<u8>)
    requires
        align > 0,
        size <= buf.len(),
    ensures
        prim_packed(x, size, buf).len() == buf.len(),
        forall|i: int| padded(size, align) <= i < buf.len() ==> #[trigger] prim_packed(x, size, buf)[i] == buf[i],
{
    lemma_le_bytes_len(x, size);
    lemma_padded_bounds(size, align);
}

proof fn lemma_prim_roundtrip(x: nat, size: nat, align: nat, buf: Seq<u8>, later: Seq<u8>)
    requires
        align > 0,
        x < radix(size),
        padded(size, align) <= buf.len(),
        padded(size, align) <= later.len(),
        later.take(padded(size, align) as int) == prim_packed(x, size, buf).take(padded(size, align) as int),
    ensures
        size <= later.len(),
        prim_read(later, size) == x,
{
    lemma_le_bytes_len(x, size);
    lemma_padded_bounds(size, align);
    let n = padded(size, align) as int;
    assert(later.take(size as int) =~= later.take(n).take(size as int));
    assert(prim_packed(x, size, buf).take(n).take(size as int) =~= le_bytes(x, size));
    lemma_le_roundtrip(x, size);
}

/// Writes the `size` little-endian bytes of `x` at the front of `bytes`.
fn pack_prim(bytes: &mut [u8], x: u128, size: usize)
    requires
        size <= 16,
        size <= old(bytes)@.len(),
        (x as nat) < radix(size as nat),
    ensures
        final(bytes)@ == prim_packed(x as nat, size as nat, old(bytes)@),
{
    let ghost orig = bytes@;
    write_le(bytes, 0, x, size);
    assert(bytes@ =~= prim_packed(x as nat, size as nat, orig));
}

/// Reads the number held by the first `size` bytes of `bytes`.
fn unpack_prim(bytes: &[u8], size: usize) -> (r: u128)
    requires
        size <= 16,
        size <= bytes@.len(),
    ensures
        r as nat == prim_read(bytes@, size as nat),
        (r as nat) < radix(size as nat),
{
    let r = read_le(bytes, 0, size);
    proof {
        assert(bytes@.subrange(0, size as int) =~= bytes@.take(size as int));
        lemma_le_value_bound(bytes@.take(size as int));
    }
    r
}

/// The two's complement encoding of `v` modulo `2 * half`.
fn signed_to_unsigned(v: i128, half: u128) -> (u: u128)
    requires
        0 < half <= 0x8000_0000_0000_0000_0000_0000_0000_0000,
        -(half as int) <= v < half,
    ensures
        u as nat == unsigned_of(v as int, (2 * half) as nat),
{
    if v < 0 {
        ((v + (half - 1) as i128 + 1) as u128) + half
    } else {
        v as u128
    }
}

/// The number whose two's complement encoding modulo `2 * half` is `u`.
fn unsigned_to_signed(u: u128, half: u128) -> (v: i128)
    requires
        0 < half <= 0x8000_0000_0000_0000_0000_0000_0000_0000,
        u < 2 * half,
    ensures
        v as int == signed_of(u as nat, (2 * half) as nat),
{
    if u >= half {
        ((u - half) as i128) - ((half - 1) as i128) - 1
    } else {
        u as i128
    }
}

impl Pack for u8 {
    open spec fn packed_len(v: u8, align: nat) -> nat {
        padded(1, align)
    }

    open spec fn can_pack(v: u8, align: nat, room: nat) -> bool {
        room >= 1
    }

    open spec fn packed(v: u8, align: nat, buf: Seq<u8>) -> Seq<u8> {
        prim_packed(v as nat, 1, buf)
    }

    open spec fn can_unpack(buf: Seq<u8>, align: nat) -> bool {
        buf.len() >= 1
    }

    open spec fn unpacked(buf: Seq<u8>, align: nat) -> u8 {
        prim_read(buf, 1) as u8
    }

    proof fn lemma_packed_frame(v: u8, align: nat, buf: Seq<u8>) {
        lemma_prim_frame(v as nat, 1, align, buf);
    }

    proof fn lemma_pack_unpack(v: u8, align: nat, buf: Seq<u8>, later: Seq<u8>) {
        lemma_radix_16();
        lemma_prim_roundtrip(v as nat, 1, align, buf, later);
    }

    fn pack(&self, bytes: &mut [u8], align: usize) {
        proof {
            lemma_radix_16();
        }
        pack_prim(bytes, *self as u128, 1);
    }

    fn unpack(bytes: &[u8], align: usize) -> (v: u8) {
        proof {
            lemma_radix_16();
        }
        unpack_prim(bytes, 1) as u8
    }

    fn bytes(&self, align: usize) -> (n: usize) {
        padded_len(1, align)
    }
}

impl Pack for u16 {
    open spec fn packed_len(v: u16, align: nat) -> nat {
        padded(2, align)
    }

    open spec fn can_pack(v: u16, align: nat, room: nat) -> bool {
        room >= 2
    }

    open spec fn packed(v: u16, align: nat, buf: Seq<u8>) -> Seq<u8> {
        prim_packed(v as nat, 2, buf)
    }

    open spec fn can_unpack(buf: Seq<u8>, align: nat) -> bool {
        buf.len() >= 2
    }

    open spec fn unpacked(buf: Seq<u8>, align: nat) -> u16 {
        prim_read(buf, 2) as u16
    }

    proof fn lemma_packed_frame(v: u16, align: nat, buf: Seq<u8>) {
        lemma_prim_frame(v as nat, 2, align, buf);
    }

    proof fn lemma_pack_unpack(v: u16, align: nat, buf: Seq<u8>, later: Seq<u8>) {
        lemma_radix_16();
        lemma_prim_roundtrip(v as nat, 2, align, buf, later);
    }

    fn pack(&self, bytes: &mut [u8], align: usize) {
        proof {
            lemma_radix_16();
        }
        pack_prim(bytes, *self as u128, 2);
    }

    fn unpack(bytes: &[u8], align: usize) -> (v: u16) {
        proof {
            lemma_radix_16();
        }
        unpack_prim(bytes, 2) as u16
    }

    fn bytes(&self, align: usize) -> (n: usize) {
        padded_len(2, align)
    }
}

impl Pack for u32 {
    open spec fn packed_len(v: u32, align: nat) -> nat {
        padded(4, align)
    }

    open spec fn can_pack(v: u32, align: nat, room: nat) -> bool {
        room >= 4
    }

    open spec fn packed(v: u32, align: nat, buf: Seq<u8>) -> Seq<u8> {
        prim_packed(v as nat, 4, buf)
    }

    open spec fn can_unpack(buf: Seq<u8>, align: nat) -> bool {
        buf.len() >= 4
    }

    open spec fn unpacked(buf: Seq<u8>, align: nat) -> u32 {
        prim_read(buf, 4) as u32
    }

    proof fn lemma_packed_frame(v: u32, align: nat, buf: Seq<u8>) {
        lemma_prim_frame(v as nat, 4, align, buf);
    }

    proof fn lemma_pack_unpack(v: u32, align: nat, buf: Seq<u8>, later: Seq<u8>) {
        lemma_radix_16();
        lemma_prim_roundtrip(v as nat, 4, align, buf, later);
    }

    fn pack(&self, bytes: &mut [u8], align: usize) {
        proof {
            lemma_radix_16();
        }
        pack_prim(bytes, *self as u128, 4);
    }

    fn unpack(bytes: &[u8], align: usize) -> (v: u32) {
        proof {
            lemma_radix_16();
        }
        unpack_prim(bytes, 4) as u32
    }

    fn bytes(&self, align: usize) -> (n: usize) {
        padded_len(4, align)
    }
}

impl Pack for u64 {
    open spec fn packed_len(v: u64, align: nat) -> nat {
        padded(8, align)
    }

    open spec fn can_pack(v: u64, align: nat, room: nat) -> bool {
        room >= 8
    }

    open spec fn packed(v: u64, align: nat, buf: Seq<u8>) -> Seq<u8> {
        prim_packed(v as nat, 8, buf)
    }

    open spec fn can_unpack(buf: Seq<u8>, align: nat) -> bool {
        buf.len() >= 8
    }

    open spec fn unpacked(buf: Seq<u8>, align: nat) -> u64 {
        prim_read(buf, 8) as u64
    }

    proof fn lemma_packed_frame(v: u64, align: nat, buf: Seq<u8>) {
        lemma_prim_frame(v as nat, 8, align, buf);
    }

    proof fn lemma_pack_unpack(v: u64, align: nat, buf: Seq<u8>, later: Seq<u8>) {
        lemma_radix_16();
        lemma_prim_roundtrip(v as nat, 8, align, buf, later);
    }

    fn pack(&self, bytes: &mut [u8], align: usize) {
        proof {
            lemma_radix_16();
        }
        pack_prim(bytes, *self as u128, 8);
    }

    fn unpack(bytes: &[u8], align: usize) -> (v: u64) {
        proof {
            lemma_radix_16();
        }
        unpack_prim(bytes, 8) as u64
    }

    fn bytes(&self, align: usize) -> (n: usize) {
        padded_len(8, align)
    }
}

impl Pack for u128 {
    open spec fn packed_len(v: u128, align: nat) -> nat {
        padded(16, align)
    }

    open spec fn can_pack(v: u128, align: nat, room: nat) -> bool {
        room >= 16
    }

    open spec fn packed(v: u128, align: nat, buf: Seq<u8>) -> Seq<u8> {
        prim_packed(v as nat, 16, buf)
    }

    open spec fn can_unpack(buf: Seq<u8>, align: nat) -> bool {
        buf.len() >= 16
    }

    open spec fn unpacked(buf: Seq<u8>, align: nat) -> u128 {
        prim_read(buf, 16) as u128
    }

    proof fn lemma_packed_frame(v: u128, align: nat, buf: Seq<u8>) {
        lemma_prim_frame(v as nat, 16, align, buf);
    }

    proof fn lemma_pack_unpack(v: u128, align: nat, buf: Seq<u8>, later: Seq<u8>) {
        lemma_radix_16();
        lemma_prim_roundtrip(v as nat, 16, align, buf, later);
    }

    fn pack(&self, bytes: &mut [u8], align: usize) {
        proof {
            lemma_radix_16();
        }
        pack_prim(bytes, *self as u128, 16);
    }

    fn unpack(bytes: &[u8], align: usize) -> (v: u128) {
        proof {
            lemma_radix_16();
        }
        unpack_prim(bytes, 16) as u128
    }

    fn bytes(&self, align: usize) -> (n: usize) {
        padded_len(16, align)
    }
}

impl Pack for i8 {
    open spec fn packed_len(v: i8, align: nat) -> nat {
        padded(1, align)
    }

    open spec fn can_pack(v: i8, align: nat, room: nat) -> bool {
        room >= 1
    }

    open spec fn packed(v: i8, align: nat, buf: Seq<u8>) -> Seq<u8> {
        prim_packed(unsigned_of(v as int, radix(1)), 1, buf)
    }

    open spec fn can_unpack(buf: Seq<u8>, align: nat) -> bool {
        buf.len() >= 1
    }

    open spec fn unpacked(buf: Seq<u8>, align: nat) -> i8 {
        signed_of(prim_read(buf, 1), radix(1)) as i8
    }

    proof fn lemma_packed_frame(v: i8, align: nat, buf: Seq<u8>) {
        lemma_prim_frame(unsigned_of(v as int, radix(1)), 1, align, buf);
    }

    proof fn lemma_pack_unpack(v: i8, align: nat, buf: Seq<u8>, later: Seq<u8>) {
        lemma_radix_16();
        lemma_prim_roundtrip(unsigned_of(v as int, radix(1)), 1, align, buf, later);
    }

    fn pack(&self, bytes: &mut [u8], align: usize) {
        proof {
            lemma_radix_16();
        }
        let u = signed_to_unsigned(*self as i128, 0x80);
        pack_prim(bytes, u, 1);
    }

    fn unpack(bytes: &[u8], align: usize) -> (v: i8) {
        proof {
            lemma_radix_16();
        }
        let u = unpack_prim(bytes, 1);
        unsigned_to_signed(u, 0x80) as i8
    }

    fn bytes(&self, align: usize) -> (n: usize) {
        padded_len(1, align)
    }
}

impl Pack for i16 {
    open spec fn packed_len(v: i16, align: nat) -> nat {
        padded(2, align)
    }

    open spec fn can_pack(v: i16, align: nat, room: nat) -> bool {
        room >= 2
    }

    open spec fn packed(v: i16, align: nat, buf: Seq<u8>) -> Seq<u8> {
        prim_packed(unsigned_of(v as int, radix(2)), 2, buf)
    }

    open spec fn can_unpack(buf: Seq<u8>, align: nat) -> bool {
        buf.len() >= 2
    }

    open spec fn unpacked(buf: Seq<u8>, align: nat) -> i16 {
        signed_of(prim_read(buf, 2), radix(2)) as i16
    }

    proof fn lemma_packed_frame(v: i16, align: nat, buf: Seq<u8>) {
        lemma_prim_frame(unsigned_of(v as int, radix(2)), 2, align, buf);
    }

    proof fn lemma_pack_unpack(v: i16, align: nat, buf: Seq<u8>, later: Seq<u8>) {
        lemma_radix_16();
        lemma_prim_roundtrip(unsigned_of(v as int, radix(2)), 2, align, buf, later);
    }

    fn pack(&self, bytes: &mut [u8], align: usize) {
        proof {
            lemma_radix_16();
        }
        let u = signed_to_unsigned(*self as i128, 0x8000);
        pack_prim(bytes, u, 2);
    }

    fn unpack(bytes: &[u8], align: usize) -> (v: i16) {
        proof {
            lemma_radix_16();
        }
        let u = unpack_prim(bytes, 2);
        unsigned_to_signed(u, 0x8000) as i16
    }

    fn bytes(&self, align: usize) -> (n: usize) {
        padded_len(2, align)
    }
}

impl Pack for i32 {
    open spec fn packed_len(v: i32, align: nat) -> nat {
        padded(4, align)
    }

    open spec fn can_pack(v: i32, align: nat, room: nat) -> bool {
        room >= 4
    }

    open spec fn packed(v: i32, align: nat, buf: Seq<u8>) -> Seq<u8> {
        prim_packed(unsigned_of(v as int, radix(4)), 4, buf)
    }

    open spec fn can_unpack(buf: Seq<u8>, align: nat) -> bool {
        buf.len() >= 4
    }

    open spec fn unpacked(buf: Seq<u8>, align: nat) -> i32 {
        signed_of(prim_read(buf, 4), radix(4)) as i32
    }

    proof fn lemma_packed_frame(v: i32, align: nat, buf: Seq<u8>) {
        lemma_prim_frame(unsigned_of(v as int, radix(4)), 4, align, buf);
    }

    proof fn lemma_pack_unpack(v: i32, align: nat, buf: Seq<u8>, later: Seq<u8>) {
        lemma_radix_16();
        lemma_prim_roundtrip(unsigned_of(v as int, radix(4)), 4, align, buf, later);
    }

    fn pack(&self, bytes: &mut [u8], align: usize) {
        proof {
            lemma_radix_16();
        }
        let u = signed_to_unsigned(*self as i128, 0x80000000);
        pack_prim(bytes, u, 4);
    }

    fn unpack(bytes: &[u8], align: usize) -> (v: i32) {
        proof {
            lemma_radix_16();
        }
        let u = unpack_prim(bytes, 4);
        unsigned_to_signed(u, 0x80000000) as i32
    }

    fn bytes(&self, align: usize) -> (n: usize) {
        padded_len(4, align)
    }
}

impl Pack for i64 {
    open spec fn packed_len(v: i64, align: nat) -> nat {
        padded(8, align)
    }

    open spec fn can_pack(v: i64, align: nat, room: nat) -> bool {
        room >= 8
    }

    open spec fn packed(v: i64, align: nat, buf: Seq<u8>) -> Seq<u8> {
        prim_packed(unsigned_of(v as int, radix(8)), 8, buf)
    }

    open spec fn can_unpack(buf: Seq<u8>, align: nat) -> bool {
        buf.len() >= 8
    }

    open spec fn unpacked(buf: Seq<u8>, align: nat) -> i64 {
        signed_of(prim_read(buf, 8), radix(8)) as i64
    }

    proof fn lemma_packed_frame(v: i64, align: nat, buf: Seq<u8>) {
        lemma_prim_frame(unsigned_of(v as int, radix(8)), 8, align, buf);
    }

    proof fn lemma_pack_unpack(v: i64, align: nat, buf: Seq<u8>, later: Seq<u8>) {
        lemma_radix_16();
        lemma_prim_roundtrip(unsigned_of(v as int, radix(8)), 8, align, buf, later);
    }

    fn pack(&self, bytes: &mut [u8], align: usize) {
        proof {
            lemma_radix_16();
        }
        let u = signed_to_unsigned(*self as i128, 0x8000000000000000);
        pack_prim(bytes, u, 8);
    }

    fn unpack(bytes: &[u8], align: usize) -> (v: i64) {
        proof {
            lemma_radix_16();
        }
        let u = unpack_prim(bytes, 8);
        unsigned_to_signed(u, 0x8000000000000000) as i64
    }

    fn bytes(&self, align: usize) -> (n: usize) {
        padded_len(8, align)
    }
}

impl Pack for i128 {
    open spec fn packed_len(v: i128, align: nat) -> nat {
        padded(16, align)
    }

    open spec fn can_pack(v: i128, align: nat, room: nat) -> bool {
        room >= 16
    }

    open spec fn packed(v: i128, align: nat, buf: Seq<u8>) -> Seq<u8> {
        prim_packed(unsigned_of(v as int, radix(16)), 16, buf)
    }

    open spec fn can_unpack(buf: Seq<u8>, align: nat) -> bool {
        buf.len() >= 16
    }

    open spec fn unpacked(buf: Seq<u8>, align: nat) -> i128 {
        signed_of(prim_read(buf, 16), radix(16)) as i128
    }

    proof fn lemma_packed_frame(v: i128, align: nat, buf: Seq<u8>) {
        lemma_prim_frame(unsigned_of(v as int, radix(16)), 16, align, buf);
    }

    proof fn lemma_pack_unpack(v: i128, align: nat, buf: Seq<u8>, later: Seq<u8>) {
        lemma_radix_16();
        lemma_prim_roundtrip(unsigned_of(v as int, radix(16)), 16, align, buf, later);
    }

    fn pack(&self, bytes: &mut [u8], align: usize) {
        proof {
            lemma_radix_16();
        }
        let u = signed_to_unsigned(*self as i128, 0x80000000000000000000000000000000);
        pack_prim(bytes, u, 16);
    }

    fn unpack(bytes: &[u8], align: usize) -> (v: i128) {
        proof {
            lemma_radix_16();
        }
        let u = unpack_prim(bytes, 16);
        unsigned_to_signed(u, 0x80000000000000000000000000000000) as i128
    }

    fn bytes(&self, align: usize) -> (n: usize) {
        padded_len(16, align)
    }
}

proof fn lemma_padded_one(align: nat)
    requires
        align > 0,
    ensures
        padded(1, align) == align,
{
    if align == 1 {
        assert(1nat % 1nat == 0);
        assert(((1 - 0) as int) % 1int == 0);
    } else {
        vstd::arithmetic::div_mod::lemma_small_mod(1, align);
        vstd::arithmetic::div_mod::lemma_small_mod((align - 1) as nat, align);
    }
}

/// The byte that stands for a `bool`.
pub open spec fn bool_byte(b: bool) -> nat {
    if b {
        1
    } else {
        0
    }
}

impl Pack for bool {
    open spec fn packed_len(v: bool, align: nat) -> nat {
        align
    }

    open spec fn can_pack(v: bool, align: nat, room: nat) -> bool {
        room >= 1
    }

    open spec fn packed(v: bool, align: nat, buf: Seq<u8>) -> Seq<u8> {
        prim_packed(bool_byte(v), 1, buf)
    }

    open spec fn can_unpack(buf: Seq<u8>, align: nat) -> bool {
        buf.len() >= 1 && buf[0] <= 1
    }

    open spec fn unpacked(buf: Seq<u8>, align: nat) -> bool {
        buf[0] == 1
    }

    proof fn lemma_packed_frame(v: bool, align: nat, buf: Seq<u8>) {
        lemma_padded_one(align);
        lemma_prim_frame(bool_byte(v), 1, align, buf);
    }

    proof fn lemma_pack_unpack(v: bool, align: nat, buf: Seq<u8>, later: Seq<u8>) {
        lemma_radix_16();
        lemma_padded_one(align);
        lemma_prim_roundtrip(bool_byte(v), 1, align, buf, later);
        let t = later.take(1);
        assert(t.drop_first().len() == 0);
        assert(le_value(t) == t[0] as nat);
    }

    fn pack(&self, bytes: &mut [u8], align: usize) {
        proof {
            lemma_radix_16();
        }
        let byte: u128 = if *self {
            1
        } else {
            0
        };
        pack_prim(bytes, byte, 1);
    }

    fn unpack(bytes: &[u8], align: usize) -> (v: bool) {
        proof {
            let t = bytes@.take(1);
            assert(t.drop_first().len() == 0);
            assert(le_value(t.drop_first()) == 0);
            assert(le_value(t) == t[0] as nat);
        }
        let byte = unpack_prim(bytes, 1);
        byte == 1
    }

    fn bytes(&self, align: usize) -> (n: usize) {
        align
    }
}

/// Packs `v` into the bytes `start..end` of `bytes`, as if that range were the
/// whole buffer.
pub fn pack_field<T: Pack>(v: &T, bytes: &mut [u8], start: usize, end: usize, align: usize)
    requires
        align > 0,
        start <= end <= old(bytes)@.len(),
        T::can_pack(v@, align as nat, (end - start) as nat),
    ensures
        final(bytes)@ == old(bytes)@.take(start as int) + T::packed(
            v@,
            align as nat,
            old(bytes)@.subrange(start as int, end as int),
        ) + old(bytes)@.skip(end as int),
{
    let ghost orig = bytes@;
    let mut region: Vec<u8> = Vec::new();
    let mut i = start;
    while i < end
        invariant
            start <= i <= end,
            end <= orig.len(),
            bytes@ == orig,
            region@ == orig.subrange(start as int, i as int),
        decreases end - i,
    {
        region.push(bytes[i]);
        i = i + 1;
        assert(region@ =~= orig.subrange(start as int, i as int));
    }
    v.pack(region.as_mut_slice(), align);
    let ghost written = T::packed(v@, align as nat, orig.subrange(start as int, end as int));
    proof {
        T::lemma_packed_frame(v@, align as nat, orig.subrange(start as int, end as int));
    }
    assert(region@ == written);
    let mut j = start;
    while j < end
        invariant
            start <= j <= end,
            end <= orig.len(),
            bytes@.len() == orig.len(),
            region@ == written,
            written.len() == end - start,
            forall|k: int| 0 <= k < start ==> bytes@[k] == orig[k],
            forall|k: int| end <= k < orig.len() ==> bytes@[k] == orig[k],
            forall|k: int| start <= k < j ==> bytes@[k] == written[k - start],
        decreases end - j,
    {
        bytes[j] = region[j - start];
        j = j + 1;
    }
    assert(bytes@ =~= orig.take(start as int) + written + orig.skip(end as int));
}

/// Unpacks a value from the bytes of `bytes` from `start` on.
pub fn unpack_field<T: Pack>(bytes: &[u8], start: usize, align: usize) -> (v: T)
    requires
        align > 0,
        start <= bytes@.len(),
        T::can_unpack(bytes@.skip(start as int), align as nat),
    ensures
        v@ == T::unpacked(bytes@.skip(start as int), align as nat),
{
    let rest = vstd::slice::slice_subrange(bytes, start, bytes.len());
    assert(rest@ =~= bytes@.skip(start as int));
    T::unpack(rest, align)
}

/// Fields packed one after the other: the first at the front, the second
/// right after the bytes reserved for the first.
impl<A: Pack, B: Pack> Pack for (A, B) {
    open spec fn packed_len(v: (A::V, B::V), align: nat) -> nat {
        A::packed_len(v.0, align) + B::packed_len(v.1, align)
    }

    open spec fn can_pack(v: (A::V, B::V), align: nat, room: nat) -> bool {
        let na = A::packed_len(v.0, align);
        let nb = B::packed_len(v.1, align);
        &&& A::can_pack(v.0, align, na)
        &&& B::can_pack(v.1, align, nb)
        &&& na + nb <= room
        &&& na + nb <= usize::MAX
    }

    open spec fn packed(v: (A::V, B::V), align: nat, buf: Seq<u8>) -> Seq<u8> {
        let na = A::packed_len(v.0, align);
        let nb = B::packed_len(v.1, align);
        A::packed(v.0, align, buf.take(na as int)) + B::packed(
            v.1,
            align,
            buf.subrange(na as int, (na + nb) as int),
        ) + buf.skip((na + nb) as int)
    }

    open spec fn can_unpack(buf: Seq<u8>, align: nat) -> bool {
        &&& A::can_unpack(buf, align)
        &&& A::packed_len(A::unpacked(buf, align), align) <= buf.len()
        &&& B::can_unpack(buf.skip(A::packed_len(A::unpacked(buf, align), align) as int), align)
        &&& A::packed_len(A::unpacked(buf, align), align) + B::packed_len(
            B::unpacked(buf.skip(A::packed_len(A::unpacked(buf, align), align) as int), align),
            align,
        ) <= usize::MAX
    }

    open spec fn unpacked(buf: Seq<u8>, align: nat) -> (A::V, B::V) {
        let a = A::unpacked(buf, align);
        (a, B::unpacked(buf.skip(A::packed_len(a, align) as int), align))
    }

    proof fn lemma_packed_frame(v: (A::V, B::V), align: nat, buf: Seq<u8>) {
        let na = A::packed_len(v.0, align);
        let nb = B::packed_len(v.1, align);
        A::lemma_packed_frame(v.0, align, buf.take(na as int));
        B::lemma_packed_frame(v.1, align, buf.subrange(na as int, (na + nb) as int));
    }

    proof fn lemma_pack_unpack(v: (A::V, B::V), align: nat, buf: Seq<u8>, later: Seq<u8>) {
        let na = A::packed_len(v.0, align);
        let nb = B::packed_len(v.1, align);
        let pa = A::packed(v.0, align, buf.take(na as int));
        let pb = B::packed(v.1, align, buf.subrange(na as int, (na + nb) as int));
        let p = Self::packed(v, align, buf);
        A::lemma_packed_frame(v.0, align, buf.take(na as int));
        B::lemma_packed_frame(v.1, align, buf.subrange(na as int, (na + nb) as int));
        assert(later.take(na as int) =~= pa.take(na as int)) by {
            assert forall|i: int| 0 <= i < na implies later[i] == pa[i] by {
                assert(later.take((na + nb) as int)[i] == p.take((na + nb) as int)[i]);
            }
        }
        A::lemma_pack_unpack(v.0, align, buf.take(na as int), later);
        let rest = later.skip(na as int);
        assert(rest.take(nb as int) =~= pb.take(nb as int)) by {
            assert forall|i: int| 0 <= i < nb implies rest[i] == pb[i] by {
                assert(later.take((na + nb) as int)[na + i] == p.take((na + nb) as int)[na + i]);
            }
        }
        B::lemma_pack_unpack(v.1, align, buf.subrange(na as int, (na + nb) as int), rest);
    }

    fn pack(&self, bytes: &mut [u8], align: usize) {
        let na = self.0.bytes(align);
        let nb = self.1.bytes(align);
        let ghost orig = bytes@;
        proof {
            A::lemma_packed_frame(self.0@, align as nat, orig.take(na as int));
        }
        pack_field(&self.0, bytes, 0, na, align);
        let ghost mid = bytes@;
        pack_field(&self.1, bytes, na, na + nb, align);
        proof {
            A::lemma_packed_frame(self.0@, align as nat, orig.take(na as int));
            assert(mid.subrange(na as int, (na + nb) as int) =~= orig.subrange(na as int, (na + nb) as int));
            assert(bytes@ =~= Self::packed(self@, align as nat, orig));
        }
    }

    fn unpack(bytes: &[u8], align: usize) -> (v: (A, B)) {
        assert(bytes@.skip(0) =~= bytes@);
        let a: A = unpack_field(bytes, 0, align);
        let na = a.bytes(align);
        let b: B = unpack_field(bytes, na, align);
        (a, b)
    }

    fn bytes(&self, align: usize) -> (n: usize) {
        self.0.bytes(align) + self.1.bytes(align)
    }
}

/// A `u8` is packed as its 1 little-endian byte (`to_le_bytes`), and
/// unpacked from the first 1 byte of the buffer read the same way.
pub proof fn lemma_u8_encoding(v: u8, align: nat, buf: Seq<u8>)
    requires
        1 <= buf.len(),
    ensures
        <u8 as Pack>::packed(v, align, buf) == le_bytes(v as nat, 1) + buf.skip(1),
        <u8 as Pack>::unpacked(buf, align) as nat == le_value(buf.take(1)),
{
    lemma_radix_16();
    lemma_le_value_bound(buf.take(1));
}

/// A `u16` is packed as its 2 little-endian bytes (`to_le_bytes`), and
/// unpacked from the first 2 bytes of the buffer read the same way.
pub proof fn lemma_u16_encoding(v: u16, align: nat, buf: Seq<u8>)
    requires
        2 <= buf.len(),
    ensures
        <u16 as Pack>::packed(v, align, buf) == le_bytes(v as nat, 2) + buf.skip(2),
        <u16 as Pack>::unpacked(buf, align) as nat == le_value(buf.take(2)),
{
    lemma_radix_16();
    lemma_le_value_bound(buf.take(2));
}

/// A `u32` is packed as its 4 little-endian bytes (`to_le_bytes`), and
/// unpacked from the first 4 bytes of the buffer read the same way.
pub proof fn lemma_u32_encoding(v: u32, align: nat, buf: Seq<u8>)
    requires
        4 <= buf.len(),
    ensures
        <u32 as Pack>::packed(v, align, buf) == le_bytes(v as nat, 4) + buf.skip(4),
        <u32 as Pack>::unpacked(buf, align) as nat == le_value(buf.take(4)),
{
    lemma_radix_16();
    lemma_le_value_bound(buf.take(4));
}

/// A `u64` is packed as its 8 little-endian bytes (`to_le_bytes`), and
/// unpacked from the first 8 bytes of the buffer read the same way.
pub proof fn lemma_u64_encoding(v: u64, align: nat, buf: Seq<u8>)
    requires
        8 <= buf.len(),
    ensures
        <u64 as Pack>::packed(v, align, buf) == le_bytes(v as nat, 8) + buf.skip(8),
        <u64 as Pack>::unpacked(buf, align) as nat == le_value(buf.take(8)),
{
    lemma_radix_16();
    lemma_le_value_bound(buf.take(8));
}

/// A `u128` is packed as its 16 little-endian bytes (`to_le_bytes`), and
/// unpacked from the first 16 bytes of the buffer read the same way.
pub proof fn lemma_u128_encoding(v: u128, align: nat, buf: Seq<u8>)
    requires
        16 <= buf.len(),
    ensures
        <u128 as Pack>::packed(v, align, buf) == le_bytes(v as nat, 16) + buf.skip(16),
        <u128 as Pack>::unpacked(buf, align) as nat == le_value(buf.take(16)),
{
    lemma_radix_16();
    lemma_le_value_bound(buf.take(16));
}

/// An `i8` is packed as the 1 little-endian byte of its two's complement
/// encoding (`to_le_bytes`): the number itself when it is not negative, the
/// number plus `2^8` when it is. Unpacking reads the first 1 byte back
/// the same way: a value from `2^7` on stands for itself minus `2^8`.
pub proof fn lemma_i8_encoding(v: i8, align: nat, buf: Seq<u8>)
    requires
        1 <= buf.len(),
    ensures
        <i8 as Pack>::packed(v, align, buf) == le_bytes(
            if v >= 0 {
                v as nat
            } else {
                (v + 0x100) as nat
            },
            1,
        ) + buf.skip(1),
        <i8 as Pack>::unpacked(buf, align) == if le_value(buf.take(1)) < 0x80 {
            le_value(buf.take(1)) as int
        } else {
            le_value(buf.take(1)) - 0x100
        },
{
    lemma_radix_16();
    lemma_le_value_bound(buf.take(1));
}

/// An `i16` is packed as the 2 little-endian bytes of its two's complement
/// encoding (`to_le_bytes`): the number itself when it is not negative, the
/// number plus `2^16` when it is. Unpacking reads the first 2 bytes back
/// the same way: a value from `2^15` on stands for itself minus `2^16`.
pub proof fn lemma_i16_encoding(v: i16, align: nat, buf: Seq<u8>)
    requires
        2 <= buf.len(),
    ensures
        <i16 as Pack>::packed(v, align, buf) == le_bytes(
            if v >= 0 {
                v as nat
            } else {
                (v + 0x1_0000) as nat
            },
            2,
        ) + buf.skip(2),
        <i16 as Pack>::unpacked(buf, align) == if le_value(buf.take(2)) < 0x8000 {
            le_value(buf.take(2)) as int
        } else {
            le_value(buf.take(2)) - 0x1_0000
        },
{
    lemma_radix_16();
    lemma_le_value_bound(buf.take(2));
}

/// An `i32` is packed as the 4 little-endian bytes of its two's complement
/// encoding (`to_le_bytes`): the number itself when it is not negative, the
/// number plus `2^32` when it is. Unpacking reads the first 4 bytes back
/// the same way: a value from `2^31` on stands for itself minus `2^32`.
pub proof fn lemma_i32_encoding(v: i32, align: nat, buf: Seq<u8>)
    requires
        4 <= buf.len(),
    ensures
        <i32 as Pack>::packed(v, align, buf) == le_bytes(
            if v >= 0 {
                v as nat
            } else {
                (v + 0x1_0000_0000) as nat
            },
            4,
        ) + buf.skip(4),
        <i32 as Pack>::unpacked(buf, align) == if le_value(buf.take(4)) < 0x8000_0000 {
            le_value(buf.take(4)) as int
        } else {
            le_value(buf.take(4)) - 0x1_0000_0000
        },
{
    lemma_radix_16();
    lemma_le_value_bound(buf.take(4));
}

/// An `i64` is packed as the 8 little-endian bytes of its two's complement
/// encoding (`to_le_bytes`): the number itself when it is not negative, the
/// number plus `2^64` when it is. Unpacking reads the first 8 bytes back
/// the same way: a value from `2^63` on stands for itself minus `2^64`.
pub proof fn lemma_i64_encoding(v: i64, align: nat, buf: Seq<u8>)
    requires
        8 <= buf.len(),
    ensures
        <i64 as Pack>::packed(v, align, buf) == le_bytes(
            if v >= 0 {
                v as nat
            } else {
                (v + 0x1_0000_0000_0000_0000) as nat
            },
            8,
        ) + buf.skip(8),
        <i64 as Pack>::unpacked(buf, align) == if le_value(buf.take(8)) < 0x8000_0000_0000_0000 {
            le_value(buf.take(8)) as int
        } else {
            le_value(buf.take(8)) - 0x1_0000_0000_0000_0000
        },
{
    lemma_radix_16();
    lemma_le_value_bound(buf.take(8));
}

/// An `i128` is packed as the 16 little-endian bytes of its two's complement
/// encoding (`to_le_bytes`): the number itself when it is not negative, the
/// number plus `2^128` when it is. Unpacking reads the first 16 bytes back
/// the same way: a value from `2^127` on stands for itself minus `2^128`.
pub proof fn lemma_i128_encoding(v: i128, align: nat, buf: Seq<u8>)
    requires
        16 <= buf.len(),
    ensures
        <i128 as Pack>::packed(v, align, buf) == le_bytes(
            if v >= 0 {
                v as nat
            } else {
                (v + 0x1_0000_0000_0000_0000_0000_0000_0000_0000) as nat
            },
            16,
        ) + buf.skip(16),
        <i128 as Pack>::unpacked(buf, align) == if le_value(buf.take(16)) < 0x8000_0000_0000_0000_0000_0000_0000_0000 {
            le_value(buf.take(16)) as int
        } else {
            le_value(buf.take(16)) - 0x1_0000_0000_0000_0000_0000_0000_0000_0000
        },
{
    lemma_radix_16();
    lemma_le_value_bound(buf.take(16));
}

/// A `bool` is packed as one byte, `1` for true and `0` for false, and
/// unpacked as true exactly when the first byte is `1`.
pub proof fn lemma_bool_encoding(v: bool, align: nat, buf: Seq<u8>)
    requires
        1 <= buf.len(),
    ensures
        <bool as Pack>::packed(v, align, buf) == seq![if v { 1u8 } else { 0u8 }] + buf.skip(1),
        <bool as Pack>::unpacked(buf, align) == (buf[0] == 1),
{
    lemma_radix_16();
    reveal_with_fuel(le_bytes, 2);
    assert(le_bytes(if v { 1nat } else { 0nat }, 1) =~= seq![if v { 1u8 } else { 0u8 }]);
}


/// A pair is packed field after field: the first field's bytes fill the
/// front of the buffer, as if packed alone into the first `packed_len` bytes,
/// and the second field's bytes follow right after them; the bytes past both
/// are left as they were. Unpacking reads the first field from the front and
/// the second from right after the first field's bytes.
pub proof fn lemma_pair_layout<A: Pack, B: Pack>(v: (A::V, B::V), align: nat, buf: Seq<u8>)
    requires
        align > 0,
        <(A, B) as Pack>::can_pack(v, align, buf.len()),
    ensures
        ({
            let na = A::packed_len(v.0, align) as int;
            let nb = B::packed_len(v.1, align) as int;
            let p = <(A, B) as Pack>::packed(v, align, buf);
            &&& p.len() == buf.len()
            &&& p.take(na) == A::packed(v.0, align, buf.take(na))
            &&& p.subrange(na, na + nb) == B::packed(v.1, align, buf.subrange(na, na + nb))
            &&& p.skip(na + nb) == buf.skip(na + nb)
        }),
        <(A, B) as Pack>::unpacked(buf, align).0 == A::unpacked(buf, align),
        <(A, B) as Pack>::unpacked(buf, align).1 == B::unpacked(
            buf.skip(A::packed_len(A::unpacked(buf, align), align) as int),
            align,
        ),
{
    let na = A::packed_len(v.0, align) as int;
    let nb = B::packed_len(v.1, align) as int;
    A::lemma_packed_frame(v.0, align, buf.take(na));
    B::lemma_packed_frame(v.1, align, buf.subrange(na, na + nb));
    let pa = A::packed(v.0, align, buf.take(na));
    let pb = B::packed(v.1, align, buf.subrange(na, na + nb));
    let p = <(A, B) as Pack>::packed(v, align, buf);
    assert(p.take(na) =~= pa);
    assert(p.subrange(na, na + nb) =~= pb);
    assert(p.skip(na + nb) =~= buf.skip(na + nb));
}

} // verus!
