use formats::common::{rle0, rle1, Reader, Vec2};
use formats::error::ReadError;

fn le32(v: u32) -> [u8; 4] {
    v.to_le_bytes()
}

#[test]
fn rle0_literal_and_zero_runs() {
    // Two columns of height 4: table offsets are relative to base 0.
    let mut data: Vec<u8> = Vec::new();
    data.extend_from_slice(&le32(8)); // column 0 at absolute 8
    data.extend_from_slice(&le32(13)); // column 1 at absolute 13
    // column 0: literal run of 2, then 2 zero bytes (control 128 + 2).
    data.extend_from_slice(&[2, 10, 11, 130]);
    data.push(0xEE); // padding between columns, never read as control
    // column 1: 4 literal bytes.
    data.extend_from_slice(&[4, 1, 2, 3, 4]);
    let mut r = Reader::new(&data);
    let cols = rle0(&mut r, 0, Vec2 { x: 2u32, y: 4u32 }).unwrap();
    assert_eq!(cols, vec![10, 11, 0, 0, 1, 2, 3, 4]);
}

#[test]
fn rle1_repeated_byte_runs() {
    let mut data: Vec<u8> = Vec::new();
    data.extend_from_slice(&le32(8)); // column 0 at absolute 8
    data.extend_from_slice(&le32(12)); // column 1 at absolute 12
    // column 0: control 131 = run of 3 copies of the data byte 9, then literal 1.
    data.extend_from_slice(&[131, 9, 1, 7]);
    // column 1: zero-length repeat run (control 128 consumes its data byte),
    // then 4 literals.
    data.extend_from_slice(&[128, 42, 4, 1, 2, 3, 4]);
    let mut r = Reader::new(&data);
    let cols = rle1(&mut r, 0, Vec2 { x: 2u32, y: 4u32 }).unwrap();
    assert_eq!(cols, vec![9, 9, 9, 7, 1, 2, 3, 4]);
}

#[test]
fn rle0_size_mismatch_is_decoding_error() {
    // One column of height 2 that decodes 3 bytes: a hard decode error.
    let mut data: Vec<u8> = Vec::new();
    data.extend_from_slice(&le32(4));
    data.extend_from_slice(&[3, 1, 2, 3]);
    let mut r = Reader::new(&data);
    let e = rle0(&mut r, 0, Vec2 { x: 1u32, y: 2u32 });
    assert!(matches!(e, Err(ReadError::Decoding(_))));
}

#[test]
fn rle1_size_mismatch_is_decoding_error() {
    let mut data: Vec<u8> = Vec::new();
    data.extend_from_slice(&le32(4));
    data.extend_from_slice(&[131, 5]); // 3 bytes decoded, 2 wanted
    let mut r = Reader::new(&data);
    let e = rle1(&mut r, 0, Vec2 { x: 1u32, y: 2u32 });
    assert!(matches!(e, Err(ReadError::Decoding(_))));
}

#[test]
fn rle0_truncated_is_io_error() {
    // The column stream ends inside a literal run.
    let mut data: Vec<u8> = Vec::new();
    data.extend_from_slice(&le32(4));
    data.extend_from_slice(&[4, 1, 2]);
    let mut r = Reader::new(&data);
    let e = rle0(&mut r, 0, Vec2 { x: 1u32, y: 4u32 });
    assert!(matches!(e, Err(ReadError::IO)));
}

#[test]
fn rle0_truncated_table_is_io_error() {
    let data = [1u8, 0u8]; // not even one full table word
    let mut r = Reader::new(&data);
    let e = rle0(&mut r, 0, Vec2 { x: 1u32, y: 1u32 });
    assert!(matches!(e, Err(ReadError::IO)));
}
