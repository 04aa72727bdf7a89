use core_compat::encode::encode;
use core_compat::error::Error;
use core_compat::rle::{check_identifier, parse_rle, read_directory, read_sprite};
use core_compat::reader::Reader;
use core_compat::sprite::Sprite;

/// Identifier, reserved word, count and offset table.
fn head(reserved: u32, offsets: &[u32]) -> Vec<u8> {
    let mut out = b"Resource File\0".to_vec();
    out.extend_from_slice(&reserved.to_le_bytes());
    out.extend_from_slice(&(offsets.len() as u32).to_le_bytes());
    for offset in offsets {
        out.extend_from_slice(&offset.to_le_bytes());
    }
    out
}

/// The nine words of a sprite header.
fn sprite_header(words: [u32; 9]) -> Vec<u8> {
    let mut out = Vec::new();
    for word in words {
        out.extend_from_slice(&word.to_le_bytes());
    }
    out
}

/// Pads `buf` with filler up to `at` and appends `bytes` there.
fn place(buf: &mut Vec<u8>, at: usize, bytes: &[u8]) {
    assert!(buf.len() <= at);
    buf.resize(at, 0xEE);
    buf.extend_from_slice(bytes);
}

fn plain_sprite(width: u32, height: u32, pixels: Vec<u8>) -> Sprite {
    Sprite {
        file_number: 0,
        index: 0,
        offset: 0,
        length: 0,
        offset_x: 0,
        offset_y: 0,
        width,
        height,
        reserved_1: 0,
        reserved_2: 0,
        reserved_3: 0,
        reserved_4: 0,
        pixels,
    }
}

/// A container of one 2 x 2 sprite, laid out by the library.
fn sample_container() -> Vec<u8> {
    let sprite = plain_sprite(2, 2, vec![1, 2, 3, 4, 5, 6, 7, 8]);
    encode(0, &vec![sprite]).unwrap()
}

#[test]
fn test_c0000000_rle() {
    let data = sample_container();
    let rle = parse_rle(0, &data).unwrap();
    assert_eq!(rle.sprites.len(), 1);
    assert_eq!(rle.sprites[0].file_number, 0);
}

#[test]
fn test_c0000042_rle() {
    let data = sample_container();
    let rle = parse_rle(42, &data).unwrap();
    assert_eq!(rle.sprites.len(), 1);
    assert_eq!(rle.sprites[0].file_number, 42);
}

#[test]
fn test_ico_00000_rle() {
    let three = vec![
        plain_sprite(1, 1, vec![0x11, 0x22]),
        plain_sprite(0, 0, vec![]),
        plain_sprite(3, 1, vec![1, 2, 3, 4, 5, 6]),
    ];
    let data = encode(7, &three).unwrap();
    let rle = parse_rle(0, &data).unwrap();
    assert_eq!(rle.reserved, 7);
    assert_eq!(rle.sprites.len(), 3);
}

#[test]
fn empty_container_decodes_to_no_sprites() {
    let data = head(0xDEAD_BEEF, &[]);
    assert_eq!(data.len(), 22);
    let container = parse_rle(3, &data).unwrap();
    assert!(container.sprites.is_empty());
    assert_eq!(container.reserved, 0xDEAD_BEEF);
}

#[test]
fn zero_offsets_are_skipped_and_indices_kept() {
    let mut data = head(0, &[0, 0, 500]);
    let mut block = sprite_header([77, 1, 2, 1, 1, 3, 4, 5, 6]);
    block.extend_from_slice(&[0x01, 1, 0, 0, 0, 0xAB, 0xCD, 0x00]);
    place(&mut data, 500, &block);
    let container = parse_rle(9, &data).unwrap();
    assert_eq!(container.sprites.len(), 1);
    let sprite = &container.sprites[0];
    assert_eq!(sprite.index, 2);
    assert_eq!(sprite.offset, 500);
    assert_eq!(sprite.file_number, 9);
    assert_eq!(sprite.length, 77);
    assert_eq!(sprite.offset_x, 1);
    assert_eq!(sprite.offset_y, 2);
    assert_eq!(sprite.width, 1);
    assert_eq!(sprite.height, 1);
    assert_eq!(
        (sprite.reserved_1, sprite.reserved_2, sprite.reserved_3, sprite.reserved_4),
        (3, 4, 5, 6)
    );
    assert_eq!(sprite.pixels, vec![0xAB, 0xCD]);
}

#[test]
fn sprites_come_in_table_order_with_gaps() {
    let mut data = head(0, &[100, 0, 200, 0]);
    let mut first = sprite_header([0, 0, 0, 1, 1, 0, 0, 0, 0]);
    first.push(0x00);
    let mut second = sprite_header([0, 0, 0, 0, 5, 0, 0, 0, 0]);
    second.push(0x00);
    place(&mut data, 100, &first);
    place(&mut data, 200, &second);
    let container = parse_rle(1, &data).unwrap();
    let indices: Vec<u32> = container.sprites.iter().map(|s| s.index).collect();
    assert_eq!(indices, vec![0, 2]);
    assert_eq!(container.sprites[0].pixels, vec![0, 0]);
    assert_eq!(container.sprites[1].pixels, Vec::<u8>::new());
}

#[test]
fn offsets_may_point_backwards_and_overlap() {
    let mut data = head(0, &[300, 100, 100]);
    let mut block = sprite_header([0, 0, 0, 1, 1, 0, 0, 0, 0]);
    block.extend_from_slice(&[0x01, 1, 0, 0, 0, 9, 8, 0x00]);
    place(&mut data, 100, &block);
    place(&mut data, 300, &block);
    let container = parse_rle(0, &data).unwrap();
    assert_eq!(container.sprites.len(), 3);
    assert_eq!(container.sprites[0].offset, 300);
    assert_eq!(container.sprites[1].offset, 100);
    assert_eq!(container.sprites[2].offset, 100);
    assert_eq!(container.sprites[2].index, 2);
    assert_eq!(container.sprites[1].pixels, vec![9, 8]);
}

#[test]
fn wide_sprite_is_a_sentinel_of_two_bytes() {
    let mut data = head(0, &[40, 100]);
    // No opcode stream at all behind the sentinel: the buffer goes on with
    // bytes that are no opcodes.
    let sentinel = sprite_header([0, 0, 0, 8000, 1, 0, 0, 0, 0]);
    place(&mut data, 40, &sentinel);
    data.extend_from_slice(&[0xFF, 0xFF, 0xFF]);
    let mut next = sprite_header([0, 0, 0, 1, 1, 0, 0, 0, 0]);
    next.extend_from_slice(&[0x01, 1, 0, 0, 0, 0x34, 0x12, 0x00]);
    place(&mut data, 100, &next);
    let container = parse_rle(0, &data).unwrap();
    assert_eq!(container.sprites.len(), 2);
    assert_eq!(container.sprites[0].width, 8000);
    assert_eq!(container.sprites[0].pixels, vec![0, 0]);
    assert!(container.sprites[0].is_sentinel());
    assert_eq!(container.sprites[1].pixels, vec![0x34, 0x12]);
    assert!(!container.sprites[1].is_sentinel());
}

#[test]
fn tall_sprite_is_a_sentinel_of_two_bytes() {
    let mut data = head(0, &[26]);
    data.extend_from_slice(&sprite_header([0, 0, 0, 1, 8000, 0, 0, 0, 0]));
    // The buffer ends with the header.
    let container = parse_rle(0, &data).unwrap();
    assert_eq!(container.sprites.len(), 1);
    assert_eq!(container.sprites[0].pixels, vec![0, 0]);
}

#[test]
fn largest_decoded_size_is_below_the_limit() {
    let mut data = head(0, &[26]);
    data.extend_from_slice(&sprite_header([0, 0, 0, 7999, 1, 0, 0, 0, 0]));
    data.push(0x00);
    let container = parse_rle(0, &data).unwrap();
    assert_eq!(container.sprites[0].pixels.len(), 7999 * 2);
    assert!(container.sprites[0].pixels.iter().all(|b| *b == 0));
}

#[test]
fn paint_two_pixels_then_end() {
    let mut data = head(0, &[26]);
    data.extend_from_slice(&sprite_header([0, 0, 0, 2, 1, 0, 0, 0, 0]));
    data.extend_from_slice(&[0x01, 0x02, 0x00, 0x00, 0x00, 0xAA, 0xBB, 0xCC, 0xDD, 0x00]);
    let container = parse_rle(0, &data).unwrap();
    assert_eq!(container.sprites[0].pixels, vec![0xAA, 0xBB, 0xCC, 0xDD]);
}

#[test]
fn short_buffer_misses_identifier() {
    assert_eq!(parse_rle(0, &[]).unwrap_err(), Error::MissingIdentifier);
    assert_eq!(parse_rle(0, b"Resource File").unwrap_err(), Error::MissingIdentifier);
    assert_eq!(check_identifier(b"Resource File"), Err(Error::MissingIdentifier));
}

#[test]
fn other_text_misses_identifier() {
    assert_eq!(
        parse_rle(0, b"Resource File\n\0\0\0\0\0\0\0\0").unwrap_err(),
        Error::MissingIdentifier
    );
    assert_eq!(check_identifier(b"resource file\0"), Err(Error::MissingIdentifier));
    assert_eq!(check_identifier(b"Resource File\0"), Ok(()));
    assert_eq!(check_identifier(b"Resource File\0 and more"), Ok(()));
}

#[test]
fn bytes_that_are_no_text_are_an_encoding_error() {
    let mut data = head(0, &[]);
    data[3] = 0xFF;
    assert_eq!(parse_rle(0, &data).unwrap_err(), Error::InvalidIdentifierEncoding);
    // A two-byte character cut off by the end of the identifier.
    let mut cut = head(0, &[]);
    cut[13] = 0xC3;
    assert_eq!(parse_rle(0, &cut).unwrap_err(), Error::InvalidIdentifierEncoding);
    // Valid text other than the identifier is a missing identifier.
    let mut accent = head(0, &[]);
    accent[12] = 0xC3;
    accent[13] = 0xA9;
    assert_eq!(parse_rle(0, &accent).unwrap_err(), Error::MissingIdentifier);
}

#[test]
fn truncated_directory() {
    let full = head(5, &[0, 0]);
    for len in 14..full.len() {
        assert_eq!(parse_rle(0, &full[..len]).unwrap_err(), Error::Truncated, "length {}", len);
        assert_eq!(read_directory(&full[..len]).unwrap_err(), Error::Truncated);
    }
    assert_eq!(read_directory(&full).unwrap(), (5, vec![0, 0]));
}

#[test]
fn huge_count_in_short_buffer_is_truncated() {
    let mut data = b"Resource File\0".to_vec();
    data.extend_from_slice(&0u32.to_le_bytes());
    data.extend_from_slice(&u32::MAX.to_le_bytes());
    data.extend_from_slice(&[1, 2, 3, 4, 5, 6, 7]);
    assert_eq!(parse_rle(0, &data).unwrap_err(), Error::Truncated);
}

#[test]
fn directory_words_are_little_endian() {
    let mut data = b"Resource File\0".to_vec();
    data.extend_from_slice(&[0x78, 0x56, 0x34, 0x12]);
    data.extend_from_slice(&[0x02, 0x00, 0x00, 0x00]);
    data.extend_from_slice(&[0x01, 0x02, 0x03, 0x04]);
    data.extend_from_slice(&[0xFF, 0xFF, 0xFF, 0xFF]);
    let (reserved, table) = read_directory(&data).unwrap();
    assert_eq!(reserved, 0x1234_5678);
    assert_eq!(table, vec![0x0403_0201, 0xFFFF_FFFF]);
}

#[test]
fn truncated_sprite_header() {
    let mut data = head(0, &[26]);
    data.extend_from_slice(&sprite_header([0, 0, 0, 1, 1, 0, 0, 0, 0]));
    for len in 26..data.len() {
        assert_eq!(parse_rle(0, &data[..len]).unwrap_err(), Error::Truncated, "length {}", len);
    }
    // The whole header, but no opcode behind it.
    assert_eq!(parse_rle(0, &data).unwrap_err(), Error::Truncated);
}

#[test]
fn offset_past_the_end_is_truncated() {
    let data = head(0, &[0xFFFF_FFFF]);
    assert_eq!(parse_rle(0, &data).unwrap_err(), Error::Truncated);
    let data = head(0, &[26]);
    assert_eq!(parse_rle(0, &data).unwrap_err(), Error::Truncated);
}

#[test]
fn one_bad_sprite_fails_the_whole_container() {
    let mut data = head(0, &[100, 200]);
    let mut good = sprite_header([0, 0, 0, 1, 1, 0, 0, 0, 0]);
    good.push(0x00);
    let mut bad = sprite_header([0, 0, 0, 1, 1, 0, 0, 0, 0]);
    bad.push(0x04);
    place(&mut data, 100, &good);
    place(&mut data, 200, &bad);
    assert_eq!(parse_rle(0, &data).unwrap_err(), Error::UnknownOpcode(236));
}

#[test]
fn first_failure_in_table_order_wins() {
    let mut data = head(0, &[200, 100]);
    let mut unknown = sprite_header([0, 0, 0, 1, 1, 0, 0, 0, 0]);
    unknown.push(0x09);
    let cut = sprite_header([0, 0, 0, 1, 1, 0, 0, 0, 0]);
    place(&mut data, 100, &unknown);
    place(&mut data, 200, &cut);
    // Slot 0 leads to offset 200, where the stream is missing.
    assert_eq!(parse_rle(0, &data).unwrap_err(), Error::Truncated);
}

#[test]
fn read_sprite_reads_where_it_is_told() {
    let mut data = vec![0xEE; 10];
    let mut block = sprite_header([1, 2, 3, 2, 2, 6, 7, 8, 9]);
    block.extend_from_slice(&[0x03, 0x01, 2, 0, 0, 0, 1, 2, 3, 4, 0x00]);
    data.extend_from_slice(&block);
    let mut reader = Reader::new(&data);
    let sprite = read_sprite(&mut reader, 11, 22, 10).unwrap();
    assert_eq!(sprite.file_number, 11);
    assert_eq!(sprite.index, 22);
    assert_eq!(sprite.offset, 10);
    assert_eq!(sprite.pixels, vec![0, 0, 0, 0, 1, 2, 3, 4]);
    assert_eq!(reader.position(), data.len() as u64);
}
