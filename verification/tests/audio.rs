use formats::error::ReadError;
use formats::voc::{Chunk, SampleRate, Voc};

const SIGNATURE: &[u8] = b"Creative Voice File\x1a\x1a\0";

fn header(version: u16) -> Vec<u8> {
    let mut data = SIGNATURE.to_vec();
    let check = (!version).wrapping_add(0x1234);
    data.extend_from_slice(&version.to_le_bytes());
    data.extend_from_slice(&check.to_le_bytes());
    data
}

fn push_chunk(data: &mut Vec<u8>, ty: u8, payload: &[u8]) {
    data.push(ty);
    let len = payload.len() as u32;
    data.push((len & 0xFF) as u8);
    data.push(((len >> 8) & 0xFF) as u8);
    data.push(((len >> 16) & 0xFF) as u8);
    data.extend_from_slice(payload);
}

#[test]
fn voc_parses_all_chunk_kinds() {
    let mut data = header(0x010A);
    push_chunk(&mut data, 1, &[165, 0, 10, 20, 30]); // sound start
    push_chunk(&mut data, 2, &[40, 50]); // sound continue
    push_chunk(&mut data, 3, &[100, 0, 165]); // silence
    push_chunk(&mut data, 6, &[2, 0]); // repeat twice
    push_chunk(&mut data, 6, &[0xFF, 0xFF]); // repeat forever
    push_chunk(&mut data, 7, &[]); // repeat end
    push_chunk(&mut data, 9, &[7, 7]); // unknown, bytes discarded
    data.push(0); // terminator

    let voc = Voc::read(&data).unwrap();
    assert_eq!(voc.version, 0x010A);
    assert_eq!(voc.chunks.len(), 7);
    match &voc.chunks[0] {
        Chunk::SoundStart { sample_rate, codec, data } => {
            assert_eq!(*sample_rate, SampleRate(165));
            assert_eq!(*codec, 0);
            assert_eq!(data, &vec![10u8, 20, 30]);
        },
        _ => panic!("expected sound start"),
    }
    match &voc.chunks[1] {
        Chunk::SoundContinue { data } => assert_eq!(data, &vec![40u8, 50]),
        _ => panic!("expected sound continue"),
    }
    match &voc.chunks[2] {
        Chunk::Silence { sample_count, sample_rate } => {
            assert_eq!(*sample_count, 100);
            assert_eq!(*sample_rate, SampleRate(165));
        },
        _ => panic!("expected silence"),
    }
    assert!(matches!(voc.chunks[3], Chunk::Repeat { count: Some(2) }));
    assert!(matches!(voc.chunks[4], Chunk::Repeat { count: None }));
    assert!(matches!(voc.chunks[5], Chunk::RepeatEnd));
    assert!(matches!(voc.chunks[6], Chunk::Unknown { ty: 9, len: 2 }));
}

#[test]
fn voc_bad_signature() {
    let mut data = header(1);
    data[0] = b'X';
    data.push(0);
    assert!(matches!(Voc::read(&data), Err(ReadError::Signature)));
}

#[test]
fn voc_bad_checksum_is_decoding_error() {
    let mut data = SIGNATURE.to_vec();
    data.extend_from_slice(&0x010Au16.to_le_bytes());
    data.extend_from_slice(&0u16.to_le_bytes());
    data.push(0);
    assert!(matches!(Voc::read(&data), Err(ReadError::Decoding(_))));
}

#[test]
fn voc_missing_terminator_is_io_error() {
    let data = header(0x010A);
    assert!(matches!(Voc::read(&data), Err(ReadError::IO)));
}

#[test]
fn voc_truncated_chunk_is_io_error() {
    let mut data = header(0x010A);
    push_chunk(&mut data, 2, &[1, 2, 3]);
    data.truncate(data.len() - 1);
    assert!(matches!(Voc::read(&data), Err(ReadError::IO)));
}

#[test]
fn sample_rate_encoding_of_the_documented_rate() {
    // 11025 Hz is the one rate the format is documented to use.
    assert_eq!(SampleRate::from_frequency(11025), SampleRate(165));
}

#[test]
fn sample_rate_decode_is_lossy() {
    // Decoding 165 gives 10989 Hz, not the 11025 Hz it was encoded from.
    assert_eq!(SampleRate(165).frequency(), 10989);
}
