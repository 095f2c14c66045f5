use formats::error::ReadError;
use formats::wax::{IndexMap, Wax};

fn put_u32(data: &mut Vec<u8>, at: usize, v: u32) {
    data[at..at + 4].copy_from_slice(&v.to_le_bytes());
}

/// One state whose 32 angles all point at one sequence; the sequence
/// holds two frames that share one cell.
fn wax_image() -> Vec<u8> {
    let mut data = vec![0u8; 500];
    put_u32(&mut data, 0, 2); // version
    put_u32(&mut data, 4, 1); // sequence count
    put_u32(&mut data, 8, 2); // frame count
    put_u32(&mut data, 12, 1); // cell count
    // state offset table at 32: one state at 160, then the 0 terminator.
    put_u32(&mut data, 32, 160);
    // state record at 160: world size, frame rate, 4 reserved words.
    put_u32(&mut data, 160, 10);
    put_u32(&mut data, 164, 20);
    put_u32(&mut data, 168, 15);
    // 32 per-angle sequence offsets at 188..316, all the same.
    for a in 0..32 {
        put_u32(&mut data, 188 + 4 * a, 316);
    }
    // sequence record at 316: frame offsets start at 316 + 16 = 332.
    put_u32(&mut data, 332, 400); // frame 1
    put_u32(&mut data, 336, 430); // frame 2
    put_u32(&mut data, 340, 0); // terminator
    // frame record at 400: insertion point, flip, cell offset.
    put_u32(&mut data, 400, 1);
    put_u32(&mut data, 404, 2);
    put_u32(&mut data, 408, 0);
    put_u32(&mut data, 412, 460); // cell offset
    // frame record at 430, sharing the same cell.
    put_u32(&mut data, 430, 3);
    put_u32(&mut data, 434, 4);
    put_u32(&mut data, 438, 1);
    put_u32(&mut data, 442, 460); // same cell offset
    // cell record at 460: 1 by 1, uncompressed, one pixel.
    put_u32(&mut data, 460, 1);
    put_u32(&mut data, 464, 1);
    put_u32(&mut data, 468, 0);
    put_u32(&mut data, 472, 1);
    put_u32(&mut data, 476, 0);
    put_u32(&mut data, 480, 0);
    data[484] = 9; // the pixel
    data
}

#[test]
fn wax_reads_header_and_state() {
    let data = wax_image();
    let wax = Wax::read(&data).unwrap();
    assert_eq!(wax.version, 2);
    assert_eq!(wax.num_sequences, 1);
    assert_eq!(wax.num_frames, 2);
    assert_eq!(wax.num_cells, 1);
    assert_eq!(wax.states.len(), 1);
    let state = &wax.states[0];
    assert_eq!(state.offset, 160);
    assert_eq!((state.world_size.x, state.world_size.y), (10, 20));
    assert_eq!(state.frame_rate, 15);
}

#[test]
fn wax_angles_sharing_an_offset_share_a_slot() {
    // All 32 angle slots point at the sequence record at one offset, so
    // they must all resolve to the same arena index.
    let data = wax_image();
    let wax = Wax::read(&data).unwrap();
    assert_eq!(wax.sequences.len(), 1);
    let state = &wax.states[0];
    assert_eq!(state.angle_sequence_indices.len(), 32);
    for a in 0..32 {
        assert_eq!(state.angle_sequence_indices[a], 0);
    }
    assert_eq!(wax.sequences[0].offset, 316);
}

#[test]
fn wax_frames_sharing_a_cell_share_a_slot() {
    // Two distinct frames point at one cell offset: one cell is decoded,
    // and both frames resolve to its index.
    let data = wax_image();
    let wax = Wax::read(&data).unwrap();
    assert_eq!(wax.frames.len(), 2);
    assert_eq!(wax.frames[0].offset, 400);
    assert_eq!(wax.frames[1].offset, 430);
    assert_eq!(wax.frames[0].cell_index, 0);
    assert_eq!(wax.frames[1].cell_index, 0);
    assert_eq!(wax.cells.len(), 1);
    assert_eq!((wax.cells[0].size.x, wax.cells[0].size.y), (1, 1));
    assert_eq!(wax.cells[0].data, vec![9]);
}

#[test]
fn wax_frame_metadata_is_decoded() {
    let data = wax_image();
    let wax = Wax::read(&data).unwrap();
    assert_eq!((wax.frames[0].frame.offset.x, wax.frames[0].frame.offset.y), (1, 2));
    assert!(!wax.frames[0].frame.flip);
    assert_eq!((wax.frames[1].frame.offset.x, wax.frames[1].frame.offset.y), (3, 4));
    assert!(wax.frames[1].frame.flip);
    assert_eq!(wax.sequences[0].frame_indices, vec![0, 1]);
}

#[test]
fn wax_truncated_is_io_error() {
    let data = wax_image();
    assert!(matches!(Wax::read(&data[..30]), Err(ReadError::IO)));
}

#[test]
fn index_map_assigns_first_seen_slots() {
    let mut map = IndexMap::with_capacity(4);
    assert_eq!(map.add_index(5), 0);
    assert_eq!(map.add_index(7), 1);
    assert_eq!(map.add_index(5), 0);
    assert_eq!(map.add_index(7), 1);
    assert_eq!(map.add_index(9), 2);
    assert_eq!(map.keys, vec![5, 7, 9]);
}
