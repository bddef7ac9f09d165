use core::num::NonZero;
use glazer::pack::Pack;
use glazer::picture::Image;

/// Three fields, packed one after the other: `f1: bool, f2: u32, f3: u16`.
type Data = (bool, (u32, u16));

/// `f1: bool, data1: Data, f2: u32, data2: Data, f3: u16`.
type NestedData = (bool, (Data, (u32, (Data, u16))));

fn data(f1: bool, f2: u32, f3: u16) -> Data {
    (f1, (f2, f3))
}

fn nested_data(f1: bool, data1: Data, f2: u32, data2: Data, f3: u16) -> NestedData {
    (f1, (data1, (f2, (data2, f3))))
}

#[test]
fn byte_len() {
    let align = NonZero::new(2).unwrap().get();
    assert_eq!(0u8.bytes(align), 2);
    assert_eq!(0u16.bytes(align), 2);
    assert_eq!(0u32.bytes(align), 4);
    assert_eq!(0u64.bytes(align), 8);
    assert_eq!(0u128.bytes(align), 16);

    let align = NonZero::new(4).unwrap().get();
    assert_eq!(0u8.bytes(align), 4);
    assert_eq!(0u16.bytes(align), 4);
    assert_eq!(0u32.bytes(align), 4);
    assert_eq!(0u64.bytes(align), 8);
    assert_eq!(0u128.bytes(align), 16);

    let align = NonZero::new(1).unwrap().get();
    assert_eq!(0u8.bytes(align), 1);
    assert_eq!(0u16.bytes(align), 2);
    assert_eq!(0u32.bytes(align), 4);
    assert_eq!(0u64.bytes(align), 8);
    assert_eq!(0u128.bytes(align), 16);
}

#[test]
fn pack_unpack() {
    let mut bytes = [0u8; 1_000];
    let nested_data = nested_data(false, data(true, 69, 420), 42, data(false, 12, 99), 69);
    let data = data(true, 69, 420);

    for i in 1..=8 {
        let align = NonZero::new(i).unwrap().get();

        // intentionally keep garbage in here
        data.pack(&mut bytes, align);
        let unpacked_data = Data::unpack(&bytes, align);
        assert_eq!(unpacked_data, data);

        nested_data.pack(&mut bytes, align);
        let unpacked_data = NestedData::unpack(&bytes, align);
        assert_eq!(unpacked_data, nested_data);
    }

    for i in 1..=8 {
        let mut bytes = [0u8; 1_000];
        let align = NonZero::new(i).unwrap().get();

        // intentionally *don't* keep garbage in here
        data.pack(&mut bytes, align);
        let unpacked_data = Data::unpack(&bytes, align);
        assert_eq!(unpacked_data, data);

        let mut bytes = [0u8; 1_000];
        nested_data.pack(&mut bytes, align);
        let unpacked_data = NestedData::unpack(&bytes, align);
        assert_eq!(unpacked_data, nested_data);
    }
}

#[test]
fn image() {
    let data: [u32; 34 * 35] = core::array::from_fn(|i| i as u32);
    let image = Image {
        width: 34,
        height: 35,
        pixels: data.to_vec(),
    };

    for i in [1, 4, 8].into_iter() {
        let mut packed = [0u8; 5_000];
        let align = NonZero::new(i).unwrap().get();
        image.pack(&mut packed, align);
        let unpacked_image = Image::unpack(&packed, align);
        assert_eq!(unpacked_image, image);
    }
}

#[test]
fn audio() {
    let data: [f32; 69] = core::array::from_fn(|i| i as f32);
    let audio = glazer::sound::Audio {
        sample_rate: 44_100.0f32.to_bits(),
        channels: 2,
        samples: data.iter().map(|s| s.to_bits()).collect(),
    };

    for i in [1, 4, 8].into_iter() {
        let mut packed = [0u8; 5_000];
        let align = NonZero::new(i).unwrap().get();
        audio.pack(&mut packed, align);
        let unpacked_audio = glazer::sound::Audio::unpack(&packed, align);
        assert_eq!(unpacked_audio, audio);
    }
}

#[test]
fn numbers_are_little_endian_and_padding_is_left_alone() {
    let mut bytes = [0xaau8; 12];
    0x1234_5678u32.pack(&mut bytes, 8);
    assert_eq!(bytes, [0x78, 0x56, 0x34, 0x12, 0xaa, 0xaa, 0xaa, 0xaa, 0xaa, 0xaa, 0xaa, 0xaa]);
    assert_eq!(u32::unpack(&bytes, 8), 0x1234_5678);

    let mut bytes = [0xaau8; 4];
    (-2i16).pack(&mut bytes, 1);
    assert_eq!(bytes, [0xfe, 0xff, 0xaa, 0xaa]);
    assert_eq!(i16::unpack(&bytes, 1), -2);
}

#[test]
fn signed_numbers_roundtrip() {
    let mut bytes = [0u8; 32];
    for align in 1..=8 {
        for v in [i8::MIN, -1, 0, 1, i8::MAX] {
            v.pack(&mut bytes, align);
            assert_eq!(i8::unpack(&bytes, align), v);
        }
        for v in [i32::MIN, -70_000, 0, 70_000, i32::MAX] {
            v.pack(&mut bytes, align);
            assert_eq!(i32::unpack(&bytes, align), v);
        }
        for v in [i64::MIN, -1, i64::MAX] {
            v.pack(&mut bytes, align);
            assert_eq!(i64::unpack(&bytes, align), v);
        }
        for v in [i128::MIN, -1, i128::MAX] {
            v.pack(&mut bytes, align);
            assert_eq!(i128::unpack(&bytes, align), v);
        }
        for v in [0u128, u128::MAX, 0x0102_0304_0506_0708_090a_0b0c_0d0e_0f10] {
            v.pack(&mut bytes, align);
            assert_eq!(u128::unpack(&bytes, align), v);
        }
    }
}

#[test]
fn bools_take_a_whole_alignment() {
    let mut bytes = [7u8; 4];
    true.pack(&mut bytes, 4);
    assert_eq!(bytes, [1, 7, 7, 7]);
    assert!(bool::unpack(&bytes, 4));
    false.pack(&mut bytes, 4);
    assert_eq!(bytes, [0, 7, 7, 7]);
    assert!(!bool::unpack(&bytes, 4));
    assert_eq!(true.bytes(3), 3);
    assert_eq!(false.bytes(1), 1);
}

#[test]
fn field_offsets_follow_padded_lengths() {
    // (u8, u32) at alignment 4: the u8 takes 4 bytes, then the u32.
    let value: (u8, u32) = (0xab, 0x0102_0304);
    assert_eq!(value.bytes(4), 8);
    assert_eq!(value.bytes(1), 5);
    let mut bytes = [0xeeu8; 9];
    value.pack(&mut bytes, 4);
    assert_eq!(bytes, [0xab, 0xee, 0xee, 0xee, 0x04, 0x03, 0x02, 0x01, 0xee]);
    assert_eq!(<(u8, u32)>::unpack(&bytes, 4), value);
}

#[test]
fn image_layout_and_length() {
    let image = Image { width: 2, height: 1, pixels: vec![0x0403_0201, 0x0807_0605] };
    assert_eq!(image.bytes(1), 16);
    assert_eq!(image.bytes(8), 24);
    assert_eq!(image.bytes(6), 6 + 6 + 12);
    let mut bytes = [0xffu8; 18];
    image.pack(&mut bytes, 1);
    assert_eq!(
        bytes,
        [2, 0, 0, 0, 1, 0, 0, 0, 1, 2, 3, 4, 5, 6, 7, 8, 0xff, 0xff]
    );
    let mut bytes = [0xffu8; 24];
    image.pack(&mut bytes, 8);
    assert_eq!(&bytes[0..4], &[2, 0, 0, 0]);
    assert_eq!(&bytes[4..8], &[0xff; 4]);
    assert_eq!(&bytes[8..12], &[1, 0, 0, 0]);
    assert_eq!(&bytes[16..24], &[1, 2, 3, 4, 5, 6, 7, 8]);
    assert_eq!(Image::unpack(&bytes, 8), image);
}

#[test]
fn audio_length() {
    let audio = glazer::sound::Audio { sample_rate: 0, channels: 1, samples: vec![0; 3] };
    assert_eq!(audio.bytes(1), 4 + 4 + 8 + 12);
    assert_eq!(audio.bytes(8), 8 + 8 + 8 + 16);
}

#[test]
fn image_from_rgba_reads_little_endian_pixels() {
    let rgba = [1u8, 2, 3, 4, 5, 6, 7, 8];
    let image = Image::from_rgba(2, 1, &rgba).unwrap();
    assert_eq!(image, Image { width: 2, height: 1, pixels: vec![0x0403_0201, 0x0807_0605] });
    assert!(Image::from_rgba(2, 2, &rgba).is_none());
    assert!(Image::from_rgba(1, 1, &rgba).is_none());
}

#[test]
fn image_from_png_bytes() {
    let source = image::RgbaImage::from_raw(2, 1, vec![1, 2, 3, 4, 5, 6, 7, 8]).unwrap();
    let mut png = Vec::new();
    source
        .write_to(&mut std::io::Cursor::new(&mut png), image::ImageFormat::Png)
        .unwrap();
    let image = Image::from_bytes(&png).unwrap();
    assert_eq!(image, Image { width: 2, height: 1, pixels: vec![0x0403_0201, 0x0807_0605] });
}

#[test]
fn image_from_garbage_bytes_fails_to_decode() {
    let result = Image::from_bytes(&[0u8, 1, 2, 3, 4, 5]);
    assert!(matches!(result, Err(image::ImageError::Unsupported(_))));
}
