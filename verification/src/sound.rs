//! Uncompressed audio and its packed layout.
//!
//! Samples and the sample rate are 32-bit floating-point numbers; the packing
//! format only moves their bits, so they are held here as their IEEE 754 bit
//! patterns (`f32::to_bits`).

use vstd::prelude::*;
use crate::bytes::{le_bytes, le_value, padded, lemma_le_bytes_len, lemma_le_roundtrip, lemma_le_value_bound, lemma_radix_16, padded_len, write_le, read_le};
use crate::pack::{Pack, lemma_padded_bounds};
use crate::picture::image_align;

verus! {

/// Uncompressed audio: the sample rate, the number of interleaved channels,
/// and the samples, each floating-point value held as its bit pattern.
#[derive(Debug, Clone, PartialEq)]
pub struct Audio {
    pub sample_rate: u32,
    pub channels: usize,
    pub samples: Vec<u32>,
}

impl View for Audio {
    type V = (u32, usize, Seq<u32>);

    open spec fn view(&self) -> (u32, usize, Seq<u32>) {
        (self.sample_rate, self.channels, self.samples@)
    }
}

/// The offset of the channel count: the sample rate field, padded.
pub open spec fn channels_offset(align: nat) -> nat {
    padded(4, align)
}

/// The offset of the sample count.
pub open spec fn count_offset(align: nat) -> nat {
    2 * padded(4, align)
}

/// The offset of the first sample.
pub open spec fn samples_offset(align: nat) -> nat {
    2 * padded(4, align) + padded(8, align)
}

/// The byte at index `i` of the buffer after packing audio with view `v` into `buf`.
pub open spec fn audio_byte(v: (u32, usize, Seq<u32>), align: nat, buf: Seq<u8>, i: int) -> u8 {
    let c = channels_offset(align) as int;
    let l = count_offset(align) as int;
    let base = samples_offset(align) as int;
    if 0 <= i < 4 {
        le_bytes(v.0 as nat, 4)[i]
    } else if c <= i < c + 4 {
        le_bytes(v.1 as nat, 4)[i - c]
    } else if l <= i < l + 8 {
        le_bytes(v.2.len(), 8)[i - l]
    } else if base <= i < base + 4 * v.2.len() {
        le_bytes(v.2[(i - base) / 4] as nat, 4)[(i - base) % 4]
    } else {
        buf[i]
    }
}

/// The sample at index `i` of packed audio in `buf`.
pub open spec fn packed_sample(buf: Seq<u8>, align: nat, i: int) -> u32 {
    let at = samples_offset(align) + 4 * i;
    le_value(buf.subrange(at, at + 4)) as u32
}

impl Pack for Audio {
    open spec fn packed_len(v: (u32, usize, Seq<u32>), align: nat) -> nat {
        samples_offset(align) + padded(4 * v.2.len(), align)
    }

    open spec fn can_pack(v: (u32, usize, Seq<u32>), align: nat, room: nat) -> bool {
        &&& image_align(align)
        &&& Self::packed_len(v, align) <= room
        &&& Self::packed_len(v, align) <= usize::MAX
        &&& v.1 < u32::MAX
    }

    open spec fn packed(v: (u32, usize, Seq<u32>), align: nat, buf: Seq<u8>) -> Seq<u8> {
        Seq::new(buf.len(), |i: int| audio_byte(v, align, buf, i))
    }

    open spec fn can_unpack(buf: Seq<u8>, align: nat) -> bool {
        let l = count_offset(align) as int;
        let n = le_value(buf.subrange(l, l + 8));
        &&& image_align(align)
        &&& l + 8 <= buf.len()
        &&& n <= usize::MAX
        &&& samples_offset(align) + 4 * n <= buf.len()
    }

    open spec fn unpacked(buf: Seq<u8>, align: nat) -> (u32, usize, Seq<u32>) {
        let c = channels_offset(align) as int;
        let l = count_offset(align) as int;
        let n = le_value(buf.subrange(l, l + 8));
        (
            le_value(buf.subrange(0, 4)) as u32,
            le_value(buf.subrange(c, c + 4)) as usize,
            Seq::new(n, |i: int| packed_sample(buf, align, i)),
        )
    }

    proof fn lemma_packed_frame(v: (u32, usize, Seq<u32>), align: nat, buf: Seq<u8>) {
        lemma_padded_bounds(4, align);
        lemma_padded_bounds(8, align);
        lemma_padded_bounds(4 * v.2.len(), align);
    }

    proof fn lemma_pack_unpack(v: (u32, usize, Seq<u32>), align: nat, buf: Seq<u8>, later: Seq<u8>) {
        lemma_padded_bounds(4, align);
        lemma_padded_bounds(8, align);
        lemma_padded_bounds(4 * v.2.len(), align);
        lemma_radix_16();
        let n = Self::packed_len(v, align) as int;
        let p = Self::packed(v, align, buf);
        let c = channels_offset(align) as int;
        let l = count_offset(align) as int;
        let base = samples_offset(align) as int;
        assert forall|i: int| 0 <= i < n implies later[i] == audio_byte(v, align, buf, i) by {
            assert(later.take(n)[i] == p.take(n)[i]);
        }
        lemma_le_bytes_len(v.0 as nat, 4);
        lemma_le_bytes_len(v.1 as nat, 4);
        lemma_le_bytes_len(v.2.len(), 8);
        assert(later.subrange(0, 4) =~= le_bytes(v.0 as nat, 4));
        assert(later.subrange(c, c + 4) =~= le_bytes(v.1 as nat, 4));
        assert(later.subrange(l, l + 8) =~= le_bytes(v.2.len(), 8));
        lemma_le_roundtrip(v.0 as nat, 4);
        lemma_le_roundtrip(v.1 as nat, 4);
        lemma_le_roundtrip(v.2.len(), 8);
        let samples = Seq::new(v.2.len(), |i: int| packed_sample(later, align, i));
        assert forall|i: int| 0 <= i < v.2.len() implies samples[i] == v.2[i] by {
            let at = base + 4 * i;
            lemma_le_bytes_len(v.2[i] as nat, 4);
            assert forall|k: int| 0 <= k < 4 implies later.subrange(at, at + 4)[k] == le_bytes(
                v.2[i] as nat,
                4,
            )[k] by {
                assert((at + k - base) / 4 == i);
                assert((at + k - base) % 4 == k);
                assert(later[at + k] == audio_byte(v, align, buf, at + k));
            }
            assert(later.subrange(at, at + 4) =~= le_bytes(v.2[i] as nat, 4));
            lemma_le_roundtrip(v.2[i] as nat, 4);
        }
        assert(samples =~= v.2);
    }

    fn pack(&self, bytes: &mut [u8], align: usize) {
        proof {
            lemma_padded_bounds(4, align as nat);
            lemma_padded_bounds(8, align as nat);
            lemma_padded_bounds(4 * self.samples@.len(), align as nat);
            lemma_radix_16();
            lemma_le_bytes_len(self.sample_rate as nat, 4);
            lemma_le_bytes_len(self.channels as nat, 4);
            lemma_le_bytes_len(self.samples@.len(), 8);
        }
        let ghost orig = bytes@;
        let ghost v = self@;
        let blen = bytes.len();
        let r4 = padded_len(4, align);
        let r8 = padded_len(8, align);
        let count_at = r4 + r4;
        let base = count_at + r8;
        write_le(bytes, 0, self.sample_rate as u128, 4);
        write_le(bytes, r4, self.channels as u128, 4);
        let n = self.samples.len();
        write_le(bytes, count_at, n as u128, 8);
        let mut i: usize = 0;
        while i < n
            invariant
                i <= n,
                n == v.2.len(),
                v == self@,
                r4 == channels_offset(align as nat),
                r4 >= 4,
                r8 >= 8,
                count_at == count_offset(align as nat),
                base == samples_offset(align as nat),
                base + 4 * n <= orig.len(),
                blen == orig.len(),
                bytes@.len() == orig.len(),
                forall|k: int|
                    0 <= k < orig.len() ==> #[trigger] bytes@[k] == (if base + 4 * i <= k < base + 4
                        * n {
                        orig[k]
                    } else {
                        audio_byte(v, align as nat, orig, k)
                    }),
            decreases n - i,
        {
            let ghost before = bytes@;
            let sample = self.samples[i];
            proof {
                lemma_le_bytes_len(sample as nat, 4);
                lemma_radix_16();
            }
            write_le(bytes, base + 4 * i, sample as u128, 4);
            proof {
                assert forall|k: int| 0 <= k < orig.len() implies #[trigger] bytes@[k] == (if base + 4 * (i + 1) <= k < base + 4 * n {
                    orig[k]
                } else {
                    audio_byte(v, align as nat, orig, k)
                }) by {
                    let at = base + 4 * i;
                    if at <= k < at + 4 {
                        assert((k - base) / 4 == i);
                        assert((k - base) % 4 == k - at);
                    } else {
                        assert(bytes@[k] == before[k]);
                    }
                }
            }
            i = i + 1;
        }
        assert(bytes@ =~= Self::packed(self@, align as nat, orig));
    }

    fn unpack(bytes: &[u8], align: usize) -> (v: Audio) {
        proof {
            lemma_padded_bounds(4, align as nat);
            lemma_padded_bounds(8, align as nat);
            lemma_radix_16();
        }
        let blen = bytes.len();
        let r4 = padded_len(4, align);
        let r8 = padded_len(8, align);
        let count_at = r4 + r4;
        let base = count_at + r8;
        let rate = read_le(bytes, 0, 4);
        let channels = read_le(bytes, r4, 4);
        let count = read_le(bytes, count_at, 8);
        proof {
            lemma_le_value_bound(bytes@.subrange(0, 4));
            lemma_le_value_bound(bytes@.subrange(r4 as int, r4 + 4));
        }
        let n = count as usize;
        let mut samples: Vec<u32> = Vec::new();
        let mut i: usize = 0;
        while i < n
            invariant
                i <= n,
                n == count,
                base == samples_offset(align as nat),
                base + 4 * n <= bytes@.len(),
                blen == bytes@.len(),
                samples@ =~= Seq::new(i as nat, |j: int| packed_sample(bytes@, align as nat, j)),
            decreases n - i,
        {
            let s = read_le(bytes, base + 4 * i, 4);
            samples.push(s as u32);
            i = i + 1;
        }
        Audio { sample_rate: rate as u32, channels: channels as usize, samples }
    }

    fn bytes(&self, align: usize) -> (n: usize) {
        proof {
            lemma_padded_bounds(4, align as nat);
            lemma_padded_bounds(8, align as nat);
            lemma_padded_bounds(4 * self.samples@.len(), align as nat);
        }
        let r4 = padded_len(4, align);
        let r8 = padded_len(8, align);
        let samples_len = self.samples.len() * 4;
        r4 + r4 + r8 + padded_len(samples_len, align)
    }
}


/// The packed layout of audio, byte by byte: the sample rate's four
/// little-endian bytes at the front, the channel count's four at
/// `padded(4)`, the sample count's eight at `2 * padded(4)`, then each
/// sample's four, one after the other, from `2 * padded(4) + padded(8)`.
/// Unpacking reads each field from the same place.
pub proof fn lemma_audio_layout(v: (u32, usize, Seq<u32>), align: nat, buf: Seq<u8>)
    requires
        align > 0,
        <Audio as Pack>::can_pack(v, align, buf.len()),
    ensures
        ({
            let p = <Audio as Pack>::packed(v, align, buf);
            let f4 = padded(4, align) as int;
            let f8 = padded(8, align) as int;
            &&& p.len() == buf.len()
            &&& p.subrange(0, 4) == le_bytes(v.0 as nat, 4)
            &&& p.subrange(f4, f4 + 4) == le_bytes(v.1 as nat, 4)
            &&& p.subrange(2 * f4, 2 * f4 + 8) == le_bytes(v.2.len(), 8)
            &&& forall|k: int| 0 <= k < v.2.len() ==> #[trigger] p.subrange(2 * f4 + f8 + 4 * k, 2 * f4 + f8 + 4 * k + 4)
                == le_bytes(v.2[k] as nat, 4)
        }),
        ({
            let f4 = padded(4, align) as int;
            let f8 = padded(8, align) as int;
            <Audio as Pack>::can_unpack(buf, align) ==> {
                let a = <Audio as Pack>::unpacked(buf, align);
                &&& a.0 as nat == le_value(buf.subrange(0, 4))
                &&& a.1 as nat == le_value(buf.subrange(f4, f4 + 4))
                &&& a.2.len() == le_value(buf.subrange(2 * f4, 2 * f4 + 8))
                &&& forall|k: int| 0 <= k < a.2.len() ==> #[trigger] a.2[k] as nat
                    == le_value(buf.subrange(2 * f4 + f8 + 4 * k, 2 * f4 + f8 + 4 * k + 4))
            }
        }),
{
    lemma_padded_bounds(4, align);
    lemma_padded_bounds(8, align);
    lemma_padded_bounds(4 * v.2.len(), align);
    let p = <Audio as Pack>::packed(v, align, buf);
    let f4 = padded(4, align) as int;
    let f8 = padded(8, align) as int;
    let base = 2 * f4 + f8;
    lemma_le_bytes_len(v.0 as nat, 4);
    lemma_le_bytes_len(v.1 as nat, 4);
    lemma_le_bytes_len(v.2.len(), 8);
    assert(p.subrange(0, 4) =~= le_bytes(v.0 as nat, 4));
    assert(p.subrange(f4, f4 + 4) =~= le_bytes(v.1 as nat, 4));
    assert(p.subrange(2 * f4, 2 * f4 + 8) =~= le_bytes(v.2.len(), 8));
    assert forall|k: int| 0 <= k < v.2.len() implies #[trigger] p.subrange(base + 4 * k, base + 4 * k + 4)
        == le_bytes(v.2[k] as nat, 4) by {
        lemma_le_bytes_len(v.2[k] as nat, 4);
        assert forall|j: int| 0 <= j < 4 implies p.subrange(base + 4 * k, base + 4 * k + 4)[j]
            == le_bytes(v.2[k] as nat, 4)[j] by {
            assert((base + 4 * k + j - base) / 4 == k);
            assert((base + 4 * k + j - base) % 4 == j);
        }
        assert(p.subrange(base + 4 * k, base + 4 * k + 4) =~= le_bytes(v.2[k] as nat, 4));
    }
    if <Audio as Pack>::can_unpack(buf, align) {
        let a = <Audio as Pack>::unpacked(buf, align);
        lemma_radix_16();
        lemma_le_value_bound(buf.subrange(0, 4));
        lemma_le_value_bound(buf.subrange(f4, f4 + 4));
        assert(a.0 as nat == le_value(buf.subrange(0, 4)));
        assert(a.1 as nat == le_value(buf.subrange(f4, f4 + 4)));
        assert forall|k: int| 0 <= k < a.2.len() implies #[trigger] a.2[k] as nat
            == le_value(buf.subrange(base + 4 * k, base + 4 * k + 4)) by {
            lemma_le_value_bound(buf.subrange(base + 4 * k, base + 4 * k + 4));
            assert(a.2[k] == packed_sample(buf, align, k));
        }
    }
}

} // verus!
