use formats::common::{
    columns_to_rows, read_buf, read_i32, read_u16, read_u32, read_u8, read_vec, truncate_at_nul,
    Reader, Vec2,
};
use formats::error::ReadError;

#[test]
fn read_u8_advances() {
    let data = [7u8, 8u8];
    let mut r = Reader::new(&data);
    assert_eq!(read_u8(&mut r).unwrap(), 7);
    assert_eq!(read_u8(&mut r).unwrap(), 8);
    assert!(matches!(read_u8(&mut r), Err(ReadError::IO)));
}

#[test]
fn read_u16_little_endian() {
    let data = [0x34u8, 0x12u8];
    let mut r = Reader::new(&data);
    assert_eq!(read_u16(&mut r).unwrap(), 0x1234);
}

#[test]
fn read_u32_little_endian() {
    let data = [0x78u8, 0x56u8, 0x34u8, 0x12u8];
    let mut r = Reader::new(&data);
    assert_eq!(read_u32(&mut r).unwrap(), 0x12345678);
}

#[test]
fn read_i32_negative() {
    let data = [0xFFu8, 0xFFu8, 0xFFu8, 0xFFu8];
    let mut r = Reader::new(&data);
    assert_eq!(read_i32(&mut r).unwrap(), -1);

    let data2 = [0xFEu8, 0xFFu8, 0xFFu8, 0xFFu8];
    let mut r2 = Reader::new(&data2);
    assert_eq!(read_i32(&mut r2).unwrap(), -2);
}

#[test]
fn read_truncated_is_io_error() {
    let data = [1u8, 2u8, 3u8];
    let mut r = Reader::new(&data);
    assert!(matches!(read_u32(&mut r), Err(ReadError::IO)));
    // The cursor did not move, so smaller reads still succeed.
    assert_eq!(read_u16(&mut r).unwrap(), 0x0201);
}

#[test]
fn read_vec_and_buf() {
    let data = [9u8, 8u8, 7u8, 6u8];
    let mut r = Reader::new(&data);
    let v = read_vec(&mut r, 3).unwrap();
    assert_eq!(v, vec![9u8, 8u8, 7u8]);
    let mut buf = vec![0u8; 1];
    read_buf(&mut r, &mut buf).unwrap();
    assert_eq!(buf, vec![6u8]);
}

#[test]
fn seek_past_end_fails_reads() {
    let data = [1u8];
    let mut r = Reader::new(&data);
    r.seek(5);
    assert!(matches!(read_u8(&mut r), Err(ReadError::IO)));
}

#[test]
fn nul_truncation() {
    assert_eq!(truncate_at_nul(vec![65, 66, 0, 67]), vec![65, 66]);
    assert_eq!(truncate_at_nul(vec![65, 66]), vec![65, 66]);
    assert_eq!(truncate_at_nul(vec![0, 65]), Vec::<u8>::new());
}

#[test]
fn transpose_rows_from_columns() {
    // 3 wide, 2 tall; input columns are bottom-to-top.
    let cols = vec![1u8, 2, 3, 4, 5, 6];
    let rows = columns_to_rows(Vec2 { x: 3u32, y: 2u32 }, cols);
    assert_eq!(rows, vec![2u8, 4, 6, 1, 3, 5]);
}

#[test]
fn transpose_round_trip() {
    // Re-ordering the transposed image back reproduces the input exactly.
    let cols: Vec<u8> = (0u8..12).collect();
    let w = 4usize;
    let h = 3usize;
    let rows = columns_to_rows(Vec2 { x: w as u32, y: h as u32 }, cols.clone());
    let mut back = vec![0u8; w * h];
    for x in 0..w {
        for r in 0..h {
            back[x * h + r] = rows[(h - 1 - r) * w + x];
        }
    }
    assert_eq!(back, cols);
}
