use glazer::bytes::{padded_len, read_le, write_le};
use glazer::pack::{pack_field, unpack_field, Pack};
use glazer::reverb::{DelayLine, FreeverbLines, ALLPASS_CELLS, COMB_CELLS};

#[test]
fn padded_lengths() {
    assert_eq!(padded_len(4, 1), 4);
    assert_eq!(padded_len(4, 3), 6);
    assert_eq!(padded_len(4, 8), 8);
    assert_eq!(padded_len(16, 8), 16);
    assert_eq!(padded_len(0, 5), 0);
    assert_eq!(padded_len(17, 16), 32);
}

#[test]
fn little_endian_bytes() {
    let mut bytes = [0u8; 6];
    write_le(&mut bytes, 1, 0x0a0b0c, 4);
    assert_eq!(bytes, [0, 0x0c, 0x0b, 0x0a, 0, 0]);
    assert_eq!(read_le(&bytes, 1, 4), 0x0a0b0c);
    assert_eq!(read_le(&bytes, 0, 2), 0x0c00);
    assert_eq!(read_le(&bytes, 3, 0), 0);
}

#[test]
fn fields_are_packed_into_their_own_ranges() {
    let mut bytes = [9u8; 8];
    pack_field(&0x0102u16, &mut bytes, 2, 6, 4);
    assert_eq!(bytes, [9, 9, 0x02, 0x01, 9, 9, 9, 9]);
    let v: u16 = unpack_field(&bytes, 2, 4);
    assert_eq!(v, 0x0102);
    let w: u8 = unpack_field(&bytes, 7, 1);
    assert_eq!(w, 9);
}

#[test]
fn unpacking_ignores_what_follows_the_packed_bytes() {
    let value: (bool, (u32, u16)) = (true, (69, 420));
    let mut bytes = [0u8; 64];
    value.pack(&mut bytes, 4);
    let n = value.bytes(4);
    assert_eq!(n, 12);
    for b in bytes[n..].iter_mut() {
        *b = 0xff;
    }
    assert_eq!(<(bool, (u32, u16))>::unpack(&bytes, 4), value);
}

#[test]
fn delay_lines_wrap_around() {
    let mut line = DelayLine::new(10, 13);
    assert_eq!(line.len(), 3);
    let mut positions = vec![];
    for _ in 0..7 {
        positions.push(line.position());
        line.advance();
    }
    assert_eq!(positions, vec![10, 11, 12, 10, 11, 12, 10]);
}

#[test]
fn freeverb_lines_tile_their_buffers() {
    let lines = FreeverbLines::new();
    let mut combs: Vec<(usize, usize)> = lines
        .comb_left
        .iter()
        .chain(lines.comb_right.iter())
        .map(|l| (l.position(), l.position() + l.len()))
        .collect();
    combs.sort();
    assert_eq!(combs.len(), 16);
    assert_eq!(combs[0].0, 0);
    for pair in combs.windows(2) {
        assert_eq!(pair[0].1, pair[1].0);
    }
    assert_eq!(combs[15].1, COMB_CELLS);
    assert_eq!((lines.comb_left[1].position(), lines.comb_left[1].len()), (2255, 3443 - 2255));

    let mut allpasses: Vec<(usize, usize)> = lines
        .allpass_left
        .iter()
        .chain(lines.allpass_right.iter())
        .map(|l| (l.position(), l.position() + l.len()))
        .collect();
    allpasses.sort();
    assert_eq!(allpasses[0].0, 0);
    for pair in allpasses.windows(2) {
        assert_eq!(pair[0].1, pair[1].0);
    }
    assert_eq!(allpasses[7].1, ALLPASS_CELLS);
    assert_eq!((lines.allpass_right[3].position(), lines.allpass_right[3].len()), (2970, 248));
}
