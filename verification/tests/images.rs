use formats::bm::{Bm, Compression};
use formats::error::ReadError;
use formats::fme::Fme;

fn bm_header(w: u16, h: u16, compression: u8, data_size: u32) -> Vec<u8> {
    let mut data = Vec::new();
    data.extend_from_slice(b"BM \x1e");
    data.extend_from_slice(&w.to_le_bytes());
    data.extend_from_slice(&h.to_le_bytes());
    data.extend_from_slice(&w.to_le_bytes()); // idem size
    data.extend_from_slice(&h.to_le_bytes());
    data.push(0x36); // flags
    data.push(1); // log size y
    data.push(compression);
    data.push(0); // pad
    data.extend_from_slice(&data_size.to_le_bytes());
    data.extend_from_slice(&[0u8; 12]);
    data
}

#[test]
fn bm_uncompressed_is_transposed() {
    let mut data = bm_header(3, 2, 0, 6);
    // bottom-to-top column-major pixels
    data.extend_from_slice(&[1, 2, 3, 4, 5, 6]);
    let bm = Bm::read(&data).unwrap();
    assert_eq!((bm.size.x, bm.size.y), (3, 2));
    assert_eq!((bm.idem_size.x, bm.idem_size.y), (3, 2));
    assert_eq!(bm.flags, 0x36);
    assert!(bm.log_size_y);
    assert!(matches!(bm.compression, Compression::Raw));
    assert_eq!(bm.data, vec![2, 4, 6, 1, 3, 5]);
}

#[test]
fn bm_rle1_decodes_and_transposes() {
    // data_size 0 puts the column table right at byte 32.
    let mut data = bm_header(2, 3, 1, 0);
    data.extend_from_slice(&8u32.to_le_bytes()); // column 0 at 32 + 8
    data.extend_from_slice(&10u32.to_le_bytes()); // column 1 at 32 + 10
    data.extend_from_slice(&[131, 7]); // col 0: three copies of 7
    data.extend_from_slice(&[3, 1, 2, 3]); // col 1: literal run
    let bm = Bm::read(&data).unwrap();
    assert!(matches!(bm.compression, Compression::Rle1));
    assert_eq!(bm.data, vec![7, 3, 7, 2, 7, 1]);
}

#[test]
fn bm_rle0_decodes_zero_runs() {
    let mut data = bm_header(2, 2, 2, 0);
    data.extend_from_slice(&8u32.to_le_bytes()); // column 0 at 32 + 8
    data.extend_from_slice(&11u32.to_le_bytes()); // column 1 at 32 + 11
    data.extend_from_slice(&[2, 5, 6]); // col 0: two literals
    data.extend_from_slice(&[130]); // col 1: two zero bytes
    let bm = Bm::read(&data).unwrap();
    assert!(matches!(bm.compression, Compression::Rle0));
    assert_eq!(bm.data, vec![6, 0, 5, 0]);
}

#[test]
fn bm_bad_magic_is_signature_error() {
    let mut data = bm_header(1, 2, 0, 2);
    data[3] = 0;
    data.extend_from_slice(&[0, 0]);
    assert!(matches!(Bm::read(&data), Err(ReadError::Signature)));
}

#[test]
fn bm_invalid_compression_is_decoding_error() {
    let data = bm_header(1, 2, 3, 2);
    assert!(matches!(Bm::read(&data), Err(ReadError::Decoding(_))));
}

#[test]
fn bm_multi_tile_falls_back_to_placeholder() {
    // Width 1 with height over 1 is the unimplemented multi-tile layout:
    // it decodes to a 1-by-1 placeholder instead of failing.
    let data = bm_header(1, 8, 0, 8);
    let bm = Bm::read(&data).unwrap();
    assert_eq!((bm.size.x, bm.size.y), (1, 1));
    assert_eq!(bm.data, vec![1]);
    assert_eq!((bm.idem_size.x, bm.idem_size.y), (1, 8));
}

#[test]
fn bm_truncated_pixels_is_io_error() {
    let mut data = bm_header(3, 2, 0, 6);
    data.extend_from_slice(&[1, 2, 3]);
    assert!(matches!(Bm::read(&data), Err(ReadError::IO)));
}

fn fme_image(compressed: bool) -> Vec<u8> {
    let mut data = Vec::new();
    data.extend_from_slice(&(-1i32).to_le_bytes()); // insertion x
    data.extend_from_slice(&2i32.to_le_bytes()); // insertion y
    data.extend_from_slice(&1u32.to_le_bytes()); // flip
    data.extend_from_slice(&16u32.to_le_bytes()); // cell offset
    // cell header at 16
    data.extend_from_slice(&2u32.to_le_bytes()); // width
    data.extend_from_slice(&2u32.to_le_bytes()); // height
    data.extend_from_slice(&(compressed as u32).to_le_bytes());
    data.extend_from_slice(&4u32.to_le_bytes()); // payload size
    data.extend_from_slice(&0i32.to_le_bytes()); // data offset, must be 0
    data.extend_from_slice(&0u32.to_le_bytes()); // padding
    data
}

#[test]
fn fme_uncompressed_cell() {
    let mut data = fme_image(false);
    data.extend_from_slice(&[1, 2, 3, 4]);
    let fme = Fme::read(&data).unwrap();
    assert_eq!((fme.frame.offset.x, fme.frame.offset.y), (-1, 2));
    assert!(fme.frame.flip);
    assert_eq!((fme.cell.size.x, fme.cell.size.y), (2, 2));
    assert_eq!(fme.cell.data, vec![2, 4, 1, 3]);
}

#[test]
fn fme_compressed_cell_uses_first_variant() {
    let mut data = fme_image(true);
    // Column table right after the 24-byte cell header; offsets are
    // relative to the cell offset 16.
    data.extend_from_slice(&32u32.to_le_bytes()); // column 0 at 16 + 32 = 48
    data.extend_from_slice(&35u32.to_le_bytes()); // column 1 at 16 + 35 = 51
    data.extend_from_slice(&[2, 9, 8]); // col 0: literal 9, 8
    data.extend_from_slice(&[130]); // col 1: two zero bytes
    let fme = Fme::read(&data).unwrap();
    assert_eq!(fme.cell.data, vec![8, 0, 9, 0]);
}

#[test]
fn fme_nonzero_data_offset_is_decoding_error() {
    let mut data = fme_image(false);
    data[32] = 4; // the data-offset field must be zero
    data.extend_from_slice(&[1, 2, 3, 4]);
    assert!(matches!(Fme::read(&data), Err(ReadError::Decoding(_))));
}

#[test]
fn fme_truncated_is_io_error() {
    let data = fme_image(false);
    assert!(matches!(Fme::read(&data), Err(ReadError::IO)));
}
