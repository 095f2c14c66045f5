use formats::common::Reader;
use formats::error::ReadError;
use formats::pal::{channel_6_to_8_bit, Entry, Pal};

#[test]
fn expand_zero_is_zero() {
    assert_eq!(channel_6_to_8_bit(0), 0);
}

#[test]
fn expand_full_is_full() {
    assert_eq!(channel_6_to_8_bit(63), 255);
}

#[test]
fn expand_matches_formula() {
    for v in 0u8..64 {
        assert_eq!(channel_6_to_8_bit(v), (v << 2) | (v >> 4));
    }
    assert_eq!(channel_6_to_8_bit(32), 130);
    assert_eq!(channel_6_to_8_bit(1), 4);
}

#[test]
fn entry_to_rgb_expands_channels() {
    let e = Entry { r: 63, g: 0, b: 32 };
    assert_eq!(e.to_rgb(), (255, 0, 130));
}

#[test]
fn palette_reads_256_triples() {
    let mut bytes = Vec::new();
    for i in 0..256 {
        bytes.push((i % 64) as u8);
        bytes.push(((i + 1) % 64) as u8);
        bytes.push(((i + 2) % 64) as u8);
    }
    let mut r = Reader::new(&bytes);
    let pal = Pal::read(&mut r).unwrap();
    assert_eq!(pal.entries.len(), 256);
    assert_eq!(pal.entries[0].r, 0);
    assert_eq!(pal.entries[0].g, 1);
    assert_eq!(pal.entries[0].b, 2);
    assert_eq!(pal.entries[255].r, (255 % 64) as u8);
}

#[test]
fn short_palette_is_io_error() {
    let bytes = vec![0u8; 767];
    let mut r = Reader::new(&bytes);
    assert!(matches!(Pal::read(&mut r), Err(ReadError::IO)));
}
