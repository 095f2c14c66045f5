use formats::error::ReadError;
use formats::{gob, lfd};

fn gob_archive() -> Vec<u8> {
    // Two payloads right after the 8-byte header, directory at the end.
    let payload_a = [1u8, 2, 3];
    let payload_b = [4u8, 5];
    let catalog_offset = 8 + payload_a.len() as u32 + payload_b.len() as u32;
    let mut data = Vec::new();
    data.extend_from_slice(b"GOB\n");
    data.extend_from_slice(&catalog_offset.to_le_bytes());
    data.extend_from_slice(&payload_a);
    data.extend_from_slice(&payload_b);
    data.extend_from_slice(&2u32.to_le_bytes());
    // entry A: offset 8, length 3, 13-byte NUL-padded name
    data.extend_from_slice(&8u32.to_le_bytes());
    data.extend_from_slice(&3u32.to_le_bytes());
    data.extend_from_slice(b"A.PAL\0\0\0\0\0\0\0\0");
    // entry B: offset 11, length 2
    data.extend_from_slice(&11u32.to_le_bytes());
    data.extend_from_slice(&2u32.to_le_bytes());
    data.extend_from_slice(b"B.VOC\0\0\0\0\0\0\0\0");
    data
}

#[test]
fn gob_catalog_lists_entries() {
    let data = gob_archive();
    let catalog = gob::Catalog::read(&data).unwrap();
    let entries = catalog.entries();
    assert_eq!(entries.len(), 2);
    assert_eq!(entries[0].name(), &b"A.PAL".to_vec());
    assert_eq!(entries[0].offset(), 8);
    assert_eq!(entries[0].length(), 3);
    assert_eq!(entries[1].name(), &b"B.VOC".to_vec());
    assert_eq!(entries[1].offset(), 11);
    assert_eq!(entries[1].length(), 2);
}

#[test]
fn gob_entry_ranges_round_trip() {
    // Reading the catalog and then each entry's byte range reproduces
    // the payload bytes that were written into it, exactly.
    let data = gob_archive();
    let catalog = gob::Catalog::read(&data).unwrap();
    let entries = catalog.entries();
    assert_eq!(entries[0].data(&data).unwrap(), vec![1u8, 2, 3]);
    assert_eq!(entries[1].data(&data).unwrap(), vec![4u8, 5]);
}

#[test]
fn gob_bad_magic_is_signature_error() {
    let mut data = gob_archive();
    data[0] = b'X';
    assert!(matches!(gob::Catalog::read(&data), Err(ReadError::Signature)));
}

#[test]
fn gob_truncated_directory_is_io_error() {
    let mut data = gob_archive();
    data.truncate(data.len() - 5);
    assert!(matches!(gob::Catalog::read(&data), Err(ReadError::IO)));
}

#[test]
fn gob_entry_range_outside_archive_is_io_error() {
    let mut data = gob_archive();
    // Rewrite entry B's length so its range runs past the end.
    let catalog_offset = 8 + 5;
    let entry_b = catalog_offset + 4 + 21;
    data[entry_b + 4] = 0xFF;
    let catalog = gob::Catalog::read(&data).unwrap();
    let entries = catalog.entries();
    assert!(matches!(entries[1].data(&data), Err(ReadError::IO)));
}

fn lfd_archive() -> Vec<u8> {
    let mut data = Vec::new();
    // record 1: type PLTT, name "alpha", 3 payload bytes
    data.extend_from_slice(b"PLTT");
    data.extend_from_slice(b"alpha\0\0\0");
    data.extend_from_slice(&3u32.to_le_bytes());
    data.extend_from_slice(&[9, 8, 7]);
    // record 2: type VOIC, name "betabeta" (8 chars, no NUL)
    data.extend_from_slice(b"VOIC");
    data.extend_from_slice(b"betabeta");
    data.extend_from_slice(&1u32.to_le_bytes());
    data.push(42);
    data
}

#[test]
fn lfd_catalog_synthesizes_names() {
    let data = lfd_archive();
    let catalog = lfd::read(&data).unwrap();
    assert_eq!(catalog.entries.len(), 2);
    assert_eq!(catalog.entries[0].name, b"alpha.PLTT".to_vec());
    assert_eq!(catalog.entries[0].offset, 0);
    assert_eq!(catalog.entries[0].length, 3);
    assert_eq!(catalog.entries[1].name, b"betabeta.VOIC".to_vec());
    assert_eq!(catalog.entries[1].offset, 19);
    assert_eq!(catalog.entries[1].length, 1);
}

#[test]
fn lfd_payload_bytes_follow_each_header() {
    // The entry's offset is the record start; its payload begins 16
    // bytes later, and reading that range back gives the payload.
    let data = lfd_archive();
    let catalog = lfd::read(&data).unwrap();
    let e = &catalog.entries[0];
    let start = e.offset as usize + 16;
    assert_eq!(&data[start..start + e.length as usize], &[9, 8, 7]);
}

#[test]
fn lfd_partial_record_header_is_io_error() {
    let mut data = lfd_archive();
    data.extend_from_slice(b"XX"); // 2 stray bytes: a torn type code
    assert!(matches!(lfd::read(&data), Err(ReadError::IO)));
}

#[test]
fn lfd_empty_archive_is_empty_catalog() {
    let catalog = lfd::read(&[]).unwrap();
    assert_eq!(catalog.entries.len(), 0);
}

#[test]
fn catalog_find_is_case_insensitive_on_demand() {
    let data = lfd_archive();
    let catalog = lfd::read(&data).unwrap();
    assert_eq!(catalog.find(b"ALPHA.pltt", true), Some(0));
    assert_eq!(catalog.find(b"ALPHA.pltt", false), None);
    assert_eq!(catalog.find(b"alpha.PLTT", false), Some(0));
    assert_eq!(catalog.find(b"missing", true), None);
}
