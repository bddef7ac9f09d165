//! Uncompressed images and their packed layout.

use vstd::prelude::*;
use crate::bytes::{le_bytes, le_value, padded, lemma_le_bytes_len, lemma_le_roundtrip, lemma_le_value_bound, lemma_radix_16, padded_len, write_le, read_le};
use crate::pack::{Pack, lemma_padded_bounds};
use image::{GenericImageView, ImageError};
use image::metadata::Cicp;

verus! {

/// Uncompressed image with sRGB pixel data, one `u32` per pixel, row by row.
#[derive(Debug, Clone, PartialEq)]
pub struct Image {
    pub width: usize,
    pub height: usize,
    pub pixels: Vec<u32>,
}

impl View for Image {
    type V = (usize, usize, Seq<u32>);

    open spec fn view(&self) -> (usize, usize, Seq<u32>) {
        (self.width, self.height, self.pixels@)
    }
}

/// Whether `align` is one the image layout accepts: one, or even.
pub open spec fn image_align(align: nat) -> bool {
    align % 2 == 0 || align == 1
}

/// The offset of the height field: the width field, padded.
pub open spec fn header_field_len(align: nat) -> nat {
    padded(4, align)
}

/// The offset of the first pixel.
pub open spec fn pixels_offset(align: nat) -> nat {
    2 * header_field_len(align)
}

/// The byte at index `i` of the buffer after packing an image with view `v` into `buf`.
pub open spec fn image_byte(v: (usize, usize, Seq<u32>), align: nat, buf: Seq<u8>, i: int) -> u8 {
    let r = header_field_len(align) as int;
    let base = pixels_offset(align) as int;
    if 0 <= i < 4 {
        le_bytes(v.0 as nat, 4)[i]
    } else if r <= i < r + 4 {
        le_bytes(v.1 as nat, 4)[i - r]
    } else if base <= i < base + 4 * v.2.len() {
        le_bytes(v.2[(i - base) / 4] as nat, 4)[(i - base) % 4]
    } else {
        buf[i]
    }
}

/// The pixel at index `i` of a packed image in `buf`.
pub open spec fn packed_pixel(buf: Seq<u8>, align: nat, i: int) -> u32 {
    let at = pixels_offset(align) + 4 * i;
    le_value(buf.subrange(at, at + 4)) as u32
}

impl Pack for Image {
    open spec fn packed_len(v: (usize, usize, Seq<u32>), align: nat) -> nat {
        pixels_offset(align) + padded(4 * v.2.len(), align)
    }

    open spec fn can_pack(v: (usize, usize, Seq<u32>), align: nat, room: nat) -> bool {
        &&& image_align(align)
        &&& v.2.len() == v.0 * v.1
        &&& Self::packed_len(v, align) <= room
        &&& Self::packed_len(v, align) <= usize::MAX
        &&& v.0 < u32::MAX
        &&& v.1 < u32::MAX
    }

    open spec fn packed(v: (usize, usize, Seq<u32>), align: nat, buf: Seq<u8>) -> Seq<u8> {
        Seq::new(buf.len(), |i: int| image_byte(v, align, buf, i))
    }

    open spec fn can_unpack(buf: Seq<u8>, align: nat) -> bool {
        let r = header_field_len(align) as int;
        let w = le_value(buf.subrange(0, 4));
        let h = le_value(buf.subrange(r, r + 4));
        &&& image_align(align)
        &&& r + 4 <= buf.len()
        &&& w * h <= usize::MAX
        &&& pixels_offset(align) + 4 * (w * h) <= buf.len()
    }

    open spec fn unpacked(buf: Seq<u8>, align: nat) -> (usize, usize, Seq<u32>) {
        let r = header_field_len(align) as int;
        let w = le_value(buf.subrange(0, 4));
        let h = le_value(buf.subrange(r, r + 4));
        (w as usize, h as usize, Seq::new(w * h, |i: int| packed_pixel(buf, align, i)))
    }

    proof fn lemma_packed_frame(v: (usize, usize, Seq<u32>), align: nat, buf: Seq<u8>) {
        lemma_padded_bounds(4, align);
        lemma_padded_bounds(4 * v.2.len(), align);
    }

    proof fn lemma_pack_unpack(
        v: (usize, usize, Seq<u32>),
        align: nat,
        buf: Seq<u8>,
        later: Seq<u8>,
    ) {
        lemma_padded_bounds(4, align);
        lemma_padded_bounds(4 * v.2.len(), align);
        lemma_radix_16();
        let n = Self::packed_len(v, align) as int;
        let p = Self::packed(v, align, buf);
        let r = header_field_len(align) as int;
        let base = pixels_offset(align) as int;
        assert forall|i: int| 0 <= i < n implies later[i] == image_byte(v, align, buf, i) by {
            assert(later.take(n)[i] == p.take(n)[i]);
        }
        lemma_le_bytes_len(v.0 as nat, 4);
        lemma_le_bytes_len(v.1 as nat, 4);
        assert(later.subrange(0, 4) =~= le_bytes(v.0 as nat, 4));
        assert(later.subrange(r, r + 4) =~= le_bytes(v.1 as nat, 4));
        lemma_le_roundtrip(v.0 as nat, 4);
        lemma_le_roundtrip(v.1 as nat, 4);
        let px = Seq::new(v.2.len(), |i: int| packed_pixel(later, align, i));
        assert forall|i: int| 0 <= i < v.2.len() implies px[i] == v.2[i] by {
            let at = base + 4 * i;
            lemma_le_bytes_len(v.2[i] as nat, 4);
            assert forall|k: int| 0 <= k < 4 implies later.subrange(at, at + 4)[k] == le_bytes(
                v.2[i] as nat,
                4,
            )[k] by {
                assert((at + k - base) / 4 == i);
                assert((at + k - base) % 4 == k);
                assert(later[at + k] == image_byte(v, align, buf, at + k));
            }
            assert(later.subrange(at, at + 4) =~= le_bytes(v.2[i] as nat, 4));
            lemma_le_roundtrip(v.2[i] as nat, 4);
        }
        assert(px =~= v.2);
    }

    fn pack(&self, bytes: &mut [u8], align: usize) {
        proof {
            lemma_padded_bounds(4, align as nat);
            lemma_padded_bounds(4 * self.pixels@.len(), align as nat);
            lemma_radix_16();
        }
        let ghost orig = bytes@;
        let ghost v = self@;
        let blen = bytes.len();
        proof {
            lemma_le_bytes_len(self.width as nat, 4);
            lemma_le_bytes_len(self.height as nat, 4);
        }
        let r = padded_len(4, align);
        let base = r + r;
        write_le(bytes, 0, self.width as u128, 4);
        write_le(bytes, r, self.height as u128, 4);
        let n = self.pixels.len();
        let mut i: usize = 0;
        proof {
            lemma_le_bytes_len(self.width as nat, 4);
            lemma_le_bytes_len(self.height as nat, 4);
        }
        while i < n
            invariant
                i <= n,
                n == v.2.len(),
                v == self@,
                r == header_field_len(align as nat),
                r >= 4,
                base == pixels_offset(align as nat),
                base + 4 * n <= orig.len(),
                blen == orig.len(),
                bytes@.len() == orig.len(),
                forall|k: int|
                    0 <= k < orig.len() ==> #[trigger] bytes@[k] == (if base + 4 * i <= k < base + 4
                        * n {
                        orig[k]
                    } else {
                        image_byte(v, align as nat, orig, k)
                    }),
            decreases n - i,
        {
            let ghost before = bytes@;
            let px = self.pixels[i];
            proof {
                lemma_le_bytes_len(px as nat, 4);
                lemma_radix_16();
            }
            write_le(bytes, base + 4 * i, px as u128, 4);
            proof {
                assert forall|k: int| 0 <= k < orig.len() implies #[trigger] bytes@[k] == (if base + 4 * (i + 1) <= k < base + 4 * n {
                    orig[k]
                } else {
                    image_byte(v, align as nat, orig, k)
                }) by {
                    let at = base + 4 * i;
                    if at <= k < at + 4 {
                        assert((k - base) / 4 == i);
                        assert((k - base) % 4 == k - at);
                    } else {
                        assert(bytes@[k] == before[k]);
                    }
                }
            }
            i = i + 1;
        }
        assert(bytes@ =~= Self::packed(self@, align as nat, orig));
    }

    fn unpack(bytes: &[u8], align: usize) -> (v: Image) {
        proof {
            lemma_padded_bounds(4, align as nat);
            lemma_radix_16();
        }
        let blen = bytes.len();
        let r = padded_len(4, align);
        let base = r + r;
        let w = read_le(bytes, 0, 4);
        let h = read_le(bytes, r, 4);
        proof {
            lemma_le_value_bound(bytes@.subrange(0, 4));
            lemma_le_value_bound(bytes@.subrange(r as int, r + 4));
        }
        let width = w as usize;
        let height = h as usize;
        let n = width * height;
        let mut pixels: Vec<u32> = Vec::new();
        let mut i: usize = 0;
        while i < n
            invariant
                i <= n,
                n == width * height,
                base == pixels_offset(align as nat),
                base + 4 * n <= bytes@.len(),
                blen == bytes@.len(),
                pixels@ =~= Seq::new(i as nat, |j: int| packed_pixel(bytes@, align as nat, j)),
            decreases n - i,
        {
            let p = read_le(bytes, base + 4 * i, 4);
            pixels.push(p as u32);
            i = i + 1;
        }
        Image { width, height, pixels }
    }

    fn bytes(&self, align: usize) -> (n: usize) {
        proof {
            lemma_padded_bounds(4, align as nat);
            lemma_padded_bounds(4 * self.pixels@.len(), align as nat);
        }
        let r = padded_len(4, align);
        let pixels_len = self.pixels.len() * 4;
        r + r + padded_len(pixels_len, align)
    }
}

#[verifier::external_type_specification]
#[verifier::external_body]
pub struct ExImageError(ImageError);

/// Whether `image::load_from_memory` decodes the file held in `bytes`.
/// Decoding depends on the bytes alone.
pub uninterp spec fn decodes(bytes: Seq<u8>) -> bool;

/// The width, the height and the RGBA bytes (four per pixel: red, green,
/// blue, alpha; row by row) of the image that `image::load_from_memory`
/// decodes from `bytes`, tagged as sRGB. It depends on the bytes alone.
pub uninterp spec fn decoded_rgba(bytes: Seq<u8>) -> (u32, u32, Seq<u8>);

/// Calls `image::load_from_memory` on `bytes`, tags the image as sRGB with
/// `DynamicImage::set_color_space`, and hands back its width, height and the
/// RGBA8 channels of its pixels, as `GenericImageView::pixels` yields them:
/// each pixel once, row by row. It succeeds exactly on the bytes the decoder
/// decodes: in the image crate's source, `set_color_space` only checks that
/// the given color space is an RGB one (`Cicp::try_into_rgb`), which sRGB
/// is. The result is named `decoded_rgba`; the pixel iterator yields
/// `width * height` pixels of four channels each.
#[verifier::external_body]
fn decode_rgba(bytes: &[u8]) -> (r: Result<(u32, u32, Vec<u8>), ImageError>)
    ensures
        r is Ok <==> decodes(bytes@),
        r matches Ok((w, h, v)) ==> (w, h, v@) == decoded_rgba(bytes@),
        r matches Ok((w, h, v)) ==> v@.len() == 4 * (w * h),
{
    let mut image = image::load_from_memory(bytes)?;
    image.set_color_space(Cicp::SRGB)?;
    let rgba: Vec<u8> = image.pixels().flat_map(|(_, _, p)| p.0).collect();
    Ok((image.width(), image.height(), rgba))
}

/// The pixel made of the four bytes at `4 * i` in `rgba`.
pub open spec fn rgba_pixel(rgba: Seq<u8>, i: int) -> u32 {
    le_value(rgba.subrange(4 * i, 4 * i + 4)) as u32
}

/// The view of the image of `width` by `height` pixels whose RGBA bytes are
/// `rgba`, four per pixel, row by row.
pub open spec fn rgba_image(width: u32, height: u32, rgba: Seq<u8>) -> (usize, usize, Seq<u32>) {
    (width as usize, height as usize, Seq::new((width * height) as nat, |i: int| rgba_pixel(rgba, i)))
}

impl Image {
    /// The image of `width` by `height` pixels built from the first
    /// `4 * width * height` bytes of `rgba`.
    fn rgba_pixels(width: u32, height: u32, rgba: &[u8]) -> (img: Image)
        requires
            4 * (width * height) <= rgba@.len(),
        ensures
            img@ == rgba_image(width, height, rgba@),
    {
        let len = rgba.len();
        let w = width as usize;
        let h = height as usize;
        proof {
            assert(w * h <= len) by (nonlinear_arith)
                requires
                    4 * (width * height) <= len,
                    w == width,
                    h == height,
            ;
        }
        let n = w * h;
        let mut pixels: Vec<u32> = Vec::new();
        let mut i: usize = 0;
        while i < n
            invariant
                i <= n,
                n == width * height,
                4 * n <= rgba@.len(),
                len == rgba@.len(),
                pixels@ =~= Seq::new(i as nat, |j: int| rgba_pixel(rgba@, j)),
            decreases n - i,
        {
            let p = read_le(rgba, 4 * i, 4);
            pixels.push(p as u32);
            i = i + 1;
        }
        Image { width: w, height: h, pixels }
    }

    /// The image of `width` by `height` pixels whose RGBA bytes are `rgba`,
    /// four per pixel, row by row: each pixel is the little-endian number of
    /// its four bytes. `None` when `rgba` does not hold exactly four bytes per
    /// pixel.
    pub fn from_rgba(width: u32, height: u32, rgba: &[u8]) -> (r: Option<Image>)
        ensures
            r is Some <==> rgba@.len() == 4 * (width * height),
            r matches Some(img) ==> img@ == rgba_image(width, height, rgba@),
    {
        let len = rgba.len();
        let w = width as usize;
        let h = height as usize;
        let n = match w.checked_mul(h) {
            Some(n) => n,
            None => {
                proof {
                    assert(4 * (width * height) > usize::MAX) by (nonlinear_arith)
                        requires
                            width * height > usize::MAX,
                    ;
                }
                return None;
            },
        };
        if n > len / 4 || n * 4 != len {
            return None;
        }
        Some(Image::rgba_pixels(width, height, rgba))
    }

    /// Reads an image file (any format the decoder knows) held in `bytes`,
    /// tagged as sRGB: it succeeds exactly on the files the decoder decodes,
    /// and the pixels are the decoder's RGBA bytes, four to a pixel, read as
    /// `from_rgba` reads them.
    pub fn from_bytes(bytes: &[u8]) -> (r: Result<Image, ImageError>)
        ensures
            r is Ok <==> decodes(bytes@),
            r matches Ok(img) ==> img@ == rgba_image(
                decoded_rgba(bytes@).0,
                decoded_rgba(bytes@).1,
                decoded_rgba(bytes@).2,
            ),
            r matches Ok(img) ==> img.pixels@.len() == img.width * img.height,
    {
        match decode_rgba(bytes) {
            Ok((width, height, rgba)) => Ok(Image::rgba_pixels(width, height, rgba.as_slice())),
            Err(e) => Err(e),
        }
    }
}


/// The packed layout of an image, byte by byte: the width's four
/// little-endian bytes at the front, the height's four at `padded(4)`, then
/// each pixel's four, row by row, from `2 * padded(4)`. Unpacking reads each
/// field from the same place.
pub proof fn lemma_image_layout(v: (usize, usize, Seq<u32>), align: nat, buf: Seq<u8>)
    requires
        align > 0,
        <Image as Pack>::can_pack(v, align, buf.len()),
    ensures
        ({
            let p = <Image as Pack>::packed(v, align, buf);
            let f4 = padded(4, align) as int;
            &&& p.len() == buf.len()
            &&& p.subrange(0, 4) == le_bytes(v.0 as nat, 4)
            &&& p.subrange(f4, f4 + 4) == le_bytes(v.1 as nat, 4)
            &&& forall|k: int| 0 <= k < v.2.len() ==> #[trigger] p.subrange(2 * f4 + 4 * k, 2 * f4 + 4 * k + 4)
                == le_bytes(v.2[k] as nat, 4)
        }),
        ({
            let f4 = padded(4, align) as int;
            <Image as Pack>::can_unpack(buf, align) ==> {
                let img = <Image as Pack>::unpacked(buf, align);
                &&& img.0 as nat == le_value(buf.subrange(0, 4))
                &&& img.1 as nat == le_value(buf.subrange(f4, f4 + 4))
                &&& img.2.len() == img.0 * img.1
                &&& forall|k: int| 0 <= k < img.2.len() ==> #[trigger] img.2[k] as nat
                    == le_value(buf.subrange(2 * f4 + 4 * k, 2 * f4 + 4 * k + 4))
            }
        }),
{
    lemma_padded_bounds(4, align);
    lemma_padded_bounds(4 * v.2.len(), align);
    let p = <Image as Pack>::packed(v, align, buf);
    let f4 = padded(4, align) as int;
    let base = 2 * f4;
    lemma_le_bytes_len(v.0 as nat, 4);
    lemma_le_bytes_len(v.1 as nat, 4);
    assert(p.subrange(0, 4) =~= le_bytes(v.0 as nat, 4));
    assert(p.subrange(f4, f4 + 4) =~= le_bytes(v.1 as nat, 4));
    assert forall|k: int| 0 <= k < v.2.len() implies #[trigger] p.subrange(base + 4 * k, base + 4 * k + 4)
        == le_bytes(v.2[k] as nat, 4) by {
        lemma_le_bytes_len(v.2[k] as nat, 4);
        assert forall|j: int| 0 <= j < 4 implies p.subrange(base + 4 * k, base + 4 * k + 4)[j]
            == le_bytes(v.2[k] as nat, 4)[j] by {
            assert((base + 4 * k + j - base) / 4 == k);
            assert((base + 4 * k + j - base) % 4 == j);
        }
        assert(p.subrange(base + 4 * k, base + 4 * k + 4) =~= le_bytes(v.2[k] as nat, 4));
    }
    if <Image as Pack>::can_unpack(buf, align) {
        let img = <Image as Pack>::unpacked(buf, align);
        lemma_radix_16();
        lemma_le_value_bound(buf.subrange(0, 4));
        lemma_le_value_bound(buf.subrange(f4, f4 + 4));
        assert(img.0 as nat == le_value(buf.subrange(0, 4)));
        assert(img.1 as nat == le_value(buf.subrange(f4, f4 + 4)));
        assert forall|k: int| 0 <= k < img.2.len() implies #[trigger] img.2[k] as nat
            == le_value(buf.subrange(base + 4 * k, base + 4 * k + 4)) by {
            lemma_le_value_bound(buf.subrange(base + 4 * k, base + 4 * k + 4));
            assert(img.2[k] == packed_pixel(buf, align, k));
        }
    }
}

} // verus!
