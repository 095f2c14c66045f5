//! The multi-state sprite atlas: states point at sequences, sequences at
//! frames, frames at cells, all by file offset. Sub-records shared by
//! several parents are deduplicated: the first time an offset is seen it
//! is assigned the next arena slot, and every later reference resolves to
//! that same slot.

use vstd::prelude::*;

use crate::common::{le_value, read_u32, read_vec2_u32, Reader, Vec2u32};
use crate::error::{ReadError, ReadResult};
use crate::fme;
use crate::fme::{cell_parse, frame_at, CellModel, CellParse};

verus! {

/// The position of the first occurrence of `k`, or the length if there is
/// none.
pub open spec fn first_index_of(keys: Seq<u32>, k: u32) -> int
    decreases keys.len(),
{
    if keys.len() == 0 {
        0
    } else if keys[0] == k {
        0
    } else {
        1 + first_index_of(keys.drop_first(), k)
    }
}

/// Looking a key up in a first-seen index map: a key already present
/// keeps the map and resolves to its first occurrence; a new key is
/// appended and resolves to the fresh slot.
pub open spec fn add_key(keys: Seq<u32>, k: u32) -> (Seq<u32>, int) {
    if keys.contains(k) {
        (keys, first_index_of(keys, k))
    } else {
        (keys.push(k), keys.len() as int)
    }
}

/// Folding a whole list of offsets through the map, collecting the slot
/// each one resolves to.
pub open spec fn fold_keys(offsets: Seq<u32>, keys: Seq<u32>) -> (Seq<int>, Seq<u32>)
    decreases offsets.len(),
{
    if offsets.len() == 0 {
        (Seq::empty(), keys)
    } else {
        let (keys1, idx) = add_key(keys, offsets[0]);
        let folded = fold_keys(offsets.drop_first(), keys1);
        (seq![idx] + folded.0, folded.1)
    }
}

proof fn lemma_first_index_of(keys: Seq<u32>, k: u32, i: int)
    requires
        0 <= i < keys.len(),
        keys[i] == k,
        forall|j: int| 0 <= j < i ==> keys[j] != k,
    ensures
        first_index_of(keys, k) == i,
        keys.contains(k),
    decreases keys.len(),
{
    if keys[0] == k {
    } else {
        lemma_first_index_of(keys.drop_first(), k, i - 1);
    }
}

/// A key list without duplicates, as a first-seen index map keeps it.
pub open spec fn distinct_keys(keys: Seq<u32>) -> bool {
    forall|i: int, j: int| 0 <= i < j < keys.len() ==> keys[i] != keys[j]
}

proof fn lemma_first_index_properties(keys: Seq<u32>, k: u32)
    requires
        keys.contains(k),
    ensures
        0 <= first_index_of(keys, k) < keys.len(),
        keys[first_index_of(keys, k)] == k,
    decreases keys.len(),
{
    if keys[0] == k {
    } else {
        assert(keys.drop_first().contains(k)) by {
            let w = choose|w: int| 0 <= w < keys.len() && keys[w] == k;
            assert(keys.drop_first()[w - 1] == k);
        }
        lemma_first_index_properties(keys.drop_first(), k);
    }
}

/// Looking up a key keeps the map free of duplicates.
pub proof fn lemma_add_key_distinct(keys: Seq<u32>, k: u32)
    requires
        distinct_keys(keys),
    ensures
        distinct_keys(add_key(keys, k).0),
{
    if !keys.contains(k) {
        let nk = keys.push(k);
        assert forall|i: int, j: int| 0 <= i < j < nk.len() implies nk[i] != nk[j] by {
            if j == nk.len() - 1 {
                assert(nk[i] == keys[i]);
                if keys[i] == k {
                    assert(keys.contains(k));
                }
            }
        }
    }
}

/// The dedup law of the first-seen index map: two references resolve to
/// the same arena slot exactly when they carry the same offset.
pub proof fn lemma_add_key_dedup(keys: Seq<u32>, k1: u32, k2: u32)
    requires
        distinct_keys(keys),
    ensures
        ({
            let r1 = add_key(keys, k1);
            let r2 = add_key(r1.0, k2);
            r1.1 == r2.1 <==> k1 == k2
        }),
{
    let r1 = add_key(keys, k1);
    let keys1 = r1.0;
    let i1 = r1.1;
    let r2 = add_key(keys1, k2);
    let i2 = r2.1;

    // The slot a key resolves to holds that key.
    if keys.contains(k1) {
        lemma_first_index_properties(keys, k1);
    } else {
        assert(keys1[i1] == k1);
    }
    assert(0 <= i1 < keys1.len() && keys1[i1] == k1);

    if k1 == k2 {
        assert(keys1.contains(k2));
        lemma_first_index_properties(keys1, k2);
        lemma_add_key_distinct(keys, k1);
        if first_index_of(keys1, k2) != i1 {
            // Two distinct slots would hold the same key.
            assert(false);
        }
    } else {
        if keys1.contains(k2) {
            lemma_first_index_properties(keys1, k2);
            if i2 == i1 {
                assert(keys1[i1] == k2);
                assert(false);
            }
        } else {
            assert(i2 == keys1.len());
        }
    }
}

proof fn lemma_fold_keys_distinct(offsets: Seq<u32>, keys: Seq<u32>)
    requires
        distinct_keys(keys),
    ensures
        distinct_keys(fold_keys(offsets, keys).1),
    decreases offsets.len(),
{
    if offsets.len() > 0 {
        lemma_add_key_distinct(keys, offsets[0]);
        lemma_fold_keys_distinct(offsets.drop_first(), add_key(keys, offsets[0]).0);
    }
}

proof fn lemma_wax_states_distinct(data: Seq<u8>, offs: Seq<u32>, keys: Seq<u32>)
    requires
        distinct_keys(keys),
        wax_states(data, offs, keys) is Some,
    ensures
        distinct_keys((wax_states(data, offs, keys)->0).1),
    decreases offs.len(),
{
    if offs.len() > 0 {
        let keys1 = (wax_state_at(data, offs[0] as int, keys)->0).1;
        lemma_fold_keys_distinct(state_angles_raw(data, offs[0] as int), keys);
        lemma_wax_states_distinct(data, offs.drop_first(), keys1);
    }
}

proof fn lemma_wax_sequences_shape(data: Seq<u8>, skeys: Seq<u32>, fkeys: Seq<u32>)
    requires
        distinct_keys(fkeys),
        wax_sequences(data, skeys, fkeys) is Some,
    ensures
        ({
            let r = wax_sequences(data, skeys, fkeys)->0;
            &&& r.0.len() == skeys.len()
            &&& forall|i: int| 0 <= i < skeys.len() ==> (#[trigger] r.0[i]).offset == skeys[i]
            &&& distinct_keys(r.1)
        }),
    decreases skeys.len(),
{
    if skeys.len() > 0 {
        let step = wax_sequence_at(data, skeys[0], fkeys)->0;
        match zero_terminated_u32s(data, skeys[0] + 16, 32) {
            None => {},
            Some(frame_offs) => {
                lemma_fold_keys_distinct(frame_offs, fkeys);
            },
        }
        lemma_wax_sequences_shape(data, skeys.drop_first(), step.1);
    }
}

proof fn lemma_wax_frames_shape(data: Seq<u8>, fkeys: Seq<u32>, ckeys: Seq<u32>)
    requires
        distinct_keys(ckeys),
        wax_frames(data, fkeys, ckeys) is Some,
    ensures
        ({
            let r = wax_frames(data, fkeys, ckeys)->0;
            &&& r.0.len() == fkeys.len()
            &&& forall|i: int| 0 <= i < fkeys.len() ==> (#[trigger] r.0[i]).offset == fkeys[i]
            &&& distinct_keys(r.1)
        }),
    decreases fkeys.len(),
{
    if fkeys.len() > 0 {
        let step = wax_frame_at(data, fkeys[0], ckeys)->0;
        match frame_at(data, fkeys[0] as int) {
            None => {},
            Some(_) => {
                let cell_off = le_value(
                    data.subrange(fkeys[0] + 12, fkeys[0] + 16),
                ) as u32;
                lemma_add_key_distinct(ckeys, cell_off);
            },
        }
        lemma_wax_frames_shape(data, fkeys.drop_first(), step.1);
    }
}

/// The atlas dedup law: in a decoded atlas no two sequence arena slots
/// share a record offset, and no two frame arena slots do. So any two
/// references that name the same offset resolve to the same slot: if two
/// angle entries lead to sequences with one offset, they lead to one
/// sequence, and likewise for frames.
pub proof fn lemma_wax_dedup(data: Seq<u8>, m: WaxModel)
    requires
        wax_parse(data) == WaxParse::Parsed(m),
    ensures
        forall|i: int, j: int|
            0 <= i < j < m.sequences.len() ==> (#[trigger] m.sequences[i]).offset != (
            #[trigger] m.sequences[j]).offset,
        forall|i: int, j: int|
            0 <= i < j < m.frames.len() ==> (#[trigger] m.frames[i]).offset != (
            #[trigger] m.frames[j]).offset,
{
    let state_offs = zero_terminated_u32s(data, 32, 32)->0;
    let skeys = (wax_states(data, state_offs, Seq::empty())->0).1;
    lemma_wax_states_distinct(data, state_offs, Seq::empty());
    lemma_wax_sequences_shape(data, skeys, Seq::empty());
    let fkeys = (wax_sequences(data, skeys, Seq::empty())->0).1;
    lemma_wax_frames_shape(data, fkeys, Seq::empty());
}

proof fn lemma_add_key_grows(keys: Seq<u32>, k: u32)
    ensures
        add_key(keys, k).0.len() >= keys.len(),
        0 <= add_key(keys, k).1 < add_key(keys, k).0.len(),
{
    if keys.contains(k) {
        lemma_first_index_properties(keys, k);
    }
}

proof fn lemma_fold_keys_grows(offsets: Seq<u32>, keys: Seq<u32>)
    ensures
        fold_keys(offsets, keys).1.len() >= keys.len(),
        forall|i: int|
            0 <= i < fold_keys(offsets, keys).0.len() ==> 0 <= #[trigger] fold_keys(
                offsets,
                keys,
            ).0[i] < fold_keys(offsets, keys).1.len(),
        fold_keys(offsets, keys).0.len() == offsets.len(),
    decreases offsets.len(),
{
    if offsets.len() > 0 {
        lemma_add_key_grows(keys, offsets[0]);
        lemma_fold_keys_grows(offsets.drop_first(), add_key(keys, offsets[0]).0);
    }
}

proof fn lemma_wax_states_links(data: Seq<u8>, offs: Seq<u32>, keys: Seq<u32>)
    requires
        wax_states(data, offs, keys) is Some,
    ensures
        ({
            let r = wax_states(data, offs, keys)->0;
            &&& r.1.len() >= keys.len()
            &&& forall|s: int, a: int|
                0 <= s < r.0.len() && 0 <= a < (#[trigger] r.0[s]).angle_sequence_indices.len()
                    ==> 0 <= #[trigger] r.0[s].angle_sequence_indices[a] < r.1.len()
        }),
    decreases offs.len(),
{
    if offs.len() > 0 {
        let step = wax_state_at(data, offs[0] as int, keys)->0;
        lemma_fold_keys_grows(state_angles_raw(data, offs[0] as int), keys);
        lemma_wax_states_links(data, offs.drop_first(), step.1);
        let r = wax_states(data, offs, keys)->0;
        assert forall|s: int, a: int|
            0 <= s < r.0.len() && 0 <= a < (#[trigger] r.0[s]).angle_sequence_indices.len()
                implies 0 <= #[trigger] r.0[s].angle_sequence_indices[a] < r.1.len() by {
            if s == 0 {
                assert(r.0[0] == step.0);
            } else {
                let rest = wax_states(data, offs.drop_first(), step.1)->0;
                assert(r.0[s] == rest.0[s - 1]);
            }
        }
    }
}

proof fn lemma_wax_sequences_links(data: Seq<u8>, skeys: Seq<u32>, fkeys: Seq<u32>)
    requires
        wax_sequences(data, skeys, fkeys) is Some,
    ensures
        ({
            let r = wax_sequences(data, skeys, fkeys)->0;
            &&& r.1.len() >= fkeys.len()
            &&& forall|s: int, k: int|
                0 <= s < r.0.len() && 0 <= k < (#[trigger] r.0[s]).frame_indices.len() ==> 0 <= #[trigger] r.0[s].frame_indices[k] < r.1.len()
        }),
    decreases skeys.len(),
{
    if skeys.len() > 0 {
        let step = wax_sequence_at(data, skeys[0], fkeys)->0;
        match zero_terminated_u32s(data, skeys[0] + 16, 32) {
            None => {},
            Some(frame_offs) => {
                lemma_fold_keys_grows(frame_offs, fkeys);
            },
        }
        lemma_wax_sequences_links(data, skeys.drop_first(), step.1);
        let r = wax_sequences(data, skeys, fkeys)->0;
        assert forall|s: int, k: int|
            0 <= s < r.0.len() && 0 <= k < (#[trigger] r.0[s]).frame_indices.len() implies 0 <= #[trigger] r.0[s].frame_indices[k] < r.1.len() by {
            if s == 0 {
                assert(r.0[0] == step.0);
            } else {
                let rest = wax_sequences(data, skeys.drop_first(), step.1)->0;
                assert(r.0[s] == rest.0[s - 1]);
            }
        }
    }
}

proof fn lemma_wax_frames_links(data: Seq<u8>, fkeys: Seq<u32>, ckeys: Seq<u32>)
    requires
        wax_frames(data, fkeys, ckeys) is Some,
    ensures
        ({
            let r = wax_frames(data, fkeys, ckeys)->0;
            &&& r.1.len() >= ckeys.len()
            &&& forall|f: int|
                0 <= f < r.0.len() ==> 0 <= (#[trigger] r.0[f]).cell_index < r.1.len()
        }),
    decreases fkeys.len(),
{
    if fkeys.len() > 0 {
        let step = wax_frame_at(data, fkeys[0], ckeys)->0;
        match frame_at(data, fkeys[0] as int) {
            None => {},
            Some(_) => {
                let cell_off = le_value(data.subrange(fkeys[0] + 12, fkeys[0] + 16)) as u32;
                lemma_add_key_grows(ckeys, cell_off);
            },
        }
        lemma_wax_frames_links(data, fkeys.drop_first(), step.1);
        let r = wax_frames(data, fkeys, ckeys)->0;
        assert forall|f: int|
            0 <= f < r.0.len() implies 0 <= (#[trigger] r.0[f]).cell_index < r.1.len() by {
            if f == 0 {
                assert(r.0[0] == step.0);
            } else {
                let rest = wax_frames(data, fkeys.drop_first(), step.1)->0;
                assert(r.0[f] == rest.0[f - 1]);
            }
        }
    }
}

proof fn lemma_wax_cells_shape(data: Seq<u8>, ckeys: Seq<u32>)
    requires
        wax_cells(data, ckeys) is Cells,
    ensures
        (wax_cells(data, ckeys)->0).len() == ckeys.len(),
    decreases ckeys.len(),
{
    if ckeys.len() > 0 {
        lemma_wax_cells_shape(data, ckeys.drop_first());
    }
}

/// The atlas link law: in a decoded atlas every cross-arena reference is
/// a valid slot. Each state's angle entries index into the sequence
/// arena, each sequence's frame entries into the frame arena, and each
/// frame's cell entry into the cell arena.
pub proof fn lemma_wax_indices_in_range(data: Seq<u8>, m: WaxModel)
    requires
        wax_parse(data) == WaxParse::Parsed(m),
    ensures
        forall|s: int, a: int|
            0 <= s < m.states.len() && 0 <= a < (#[trigger] m.states[s]).angle_sequence_indices.len()
                ==> 0 <= #[trigger] m.states[s].angle_sequence_indices[a] < m.sequences.len(),
        forall|s: int, k: int|
            0 <= s < m.sequences.len() && 0 <= k < (#[trigger] m.sequences[s]).frame_indices.len()
                ==> 0 <= #[trigger] m.sequences[s].frame_indices[k] < m.frames.len(),
        forall|f: int|
            0 <= f < m.frames.len() ==> 0 <= (#[trigger] m.frames[f]).cell_index < m.cells.len(),
{
    let state_offs = zero_terminated_u32s(data, 32, 32)->0;
    let skeys = (wax_states(data, state_offs, Seq::empty())->0).1;
    let fkeys = (wax_sequences(data, skeys, Seq::empty())->0).1;
    let ckeys = (wax_frames(data, fkeys, Seq::empty())->0).1;
    lemma_wax_states_links(data, state_offs, Seq::empty());
    lemma_wax_sequences_shape(data, skeys, Seq::empty());
    lemma_wax_sequences_links(data, skeys, Seq::empty());
    lemma_wax_frames_shape(data, fkeys, Seq::empty());
    lemma_wax_frames_links(data, fkeys, Seq::empty());
    lemma_wax_cells_shape(data, ckeys);
}

/// The first-seen index map as executable state: an insertion-ordered key
/// list without duplicates.
pub struct IndexMap {
    pub keys: Vec<u32>,
}

impl IndexMap {
    pub fn with_capacity(capacity: usize) -> (r: IndexMap)
        ensures
            r.keys@ == Seq::<u32>::empty(),
    {
        IndexMap { keys: Vec::with_capacity(capacity) }
    }

    /// Resolves `key` to its arena slot, assigning the next slot on first
    /// sight.
    pub fn add_index(&mut self, key: u32) -> (index: usize)
        ensures
            ({
                let folded = add_key(old(self).keys@, key);
                &&& final(self).keys@ == folded.0
                &&& index as int == folded.1
            }),
            index < final(self).keys@.len(),
            final(self).keys@[index as int] == key,
    {
        let n = self.keys.len();
        let mut index: usize = 0;
        while index < n
            invariant
                index <= n,
                n == self.keys@.len(),
                self.keys@ == old(self).keys@,
                forall|j: int| 0 <= j < index ==> self.keys@[j] != key,
            decreases n - index,
        {
            if self.keys[index] == key {
                proof {
                    lemma_first_index_of(self.keys@, key, index as int);
                }
                return index;
            }
            index += 1;
        }
        proof {
            assert(!self.keys@.contains(key));
        }
        self.keys.push(key);
        index
    }
}

/// What one state means: its record offset, world-space size, frame rate,
/// and the arena slot of each of its 32 per-angle sequences.
pub ghost struct WaxStateModel {
    pub offset: int,
    pub world_w: int,
    pub world_h: int,
    pub frame_rate: int,
    pub angle_sequence_indices: Seq<int>,
}

/// What one sequence means: its record offset and its frames' arena
/// slots, in record order.
pub ghost struct WaxSequenceModel {
    pub offset: int,
    pub frame_indices: Seq<int>,
}

/// What one frame means: its record offset, its placement metadata, and
/// its cell's arena slot.
pub ghost struct WaxFrameModel {
    pub offset: int,
    pub frame: fme::Frame,
    pub cell_index: int,
}

/// What a whole atlas means: the header counts and the four arenas.
pub ghost struct WaxModel {
    pub version: int,
    pub num_sequences: int,
    pub num_frames: int,
    pub num_cells: int,
    pub states: Seq<WaxStateModel>,
    pub sequences: Seq<WaxSequenceModel>,
    pub frames: Seq<WaxFrameModel>,
    pub cells: Seq<CellModel>,
}

/// How reading an atlas can end.
pub ghost enum WaxParse {
    /// The input ended inside a record.
    Truncated,
    /// A cell's data-offset field is not zero.
    BadDataOffset,
    /// A cell's run-length columns did not decode to its size.
    SizeMismatch,
    /// The decoded atlas.
    Parsed(WaxModel),
}

/// Up to `k` offsets read as 32-bit words at `pos`, stopped early by a
/// zero word; `None` when the input ends first.
pub open spec fn zero_terminated_u32s(data: Seq<u8>, pos: int, k: int) -> Option<Seq<u32>>
    decreases k,
{
    if k <= 0 {
        Some(Seq::empty())
    } else if pos < 0 || pos + 4 > data.len() {
        None
    } else {
        let v = le_value(data.subrange(pos, pos + 4));
        if v == 0 {
            Some(Seq::empty())
        } else {
            match zero_terminated_u32s(data, pos + 4, k - 1) {
                None => None,
                Some(rest) => Some(seq![v as u32] + rest),
            }
        }
    }
}

/// The 32 raw angle words of the state record at `off`.
pub open spec fn state_angles_raw(data: Seq<u8>, off: int) -> Seq<u32> {
    Seq::new(32, |a: int| le_value(data.subrange(off + 28 + 4 * a, off + 28 + 4 * a + 4)) as u32)
}

/// The state record at `off`, folding its 32 angle words through the
/// sequence map.
pub open spec fn wax_state_at(data: Seq<u8>, off: int, keys: Seq<u32>) -> Option<
    (WaxStateModel, Seq<u32>),
> {
    if off < 0 || off + 156 > data.len() {
        None
    } else {
        let folded = fold_keys(state_angles_raw(data, off), keys);
        Some(
            (
                WaxStateModel {
                    offset: off,
                    world_w: le_value(data.subrange(off, off + 4)),
                    world_h: le_value(data.subrange(off + 4, off + 8)),
                    frame_rate: le_value(data.subrange(off + 8, off + 12)),
                    angle_sequence_indices: folded.0,
                },
                folded.1,
            ),
        )
    }
}

/// The state records at each offset in turn, threading the sequence map
/// through.
pub open spec fn wax_states(data: Seq<u8>, offs: Seq<u32>, keys: Seq<u32>) -> Option<
    (Seq<WaxStateModel>, Seq<u32>),
>
    decreases offs.len(),
{
    if offs.len() == 0 {
        Some((Seq::empty(), keys))
    } else {
        match wax_state_at(data, offs[0] as int, keys) {
            None => None,
            Some((s, keys1)) => match wax_states(data, offs.drop_first(), keys1) {
                None => None,
                Some((rest, keys2)) => Some((seq![s] + rest, keys2)),
            },
        }
    }
}

/// The sequence record at `off`: up to 32 zero-terminated frame offsets
/// at `off + 16`, folded through the frame map.
pub open spec fn wax_sequence_at(data: Seq<u8>, off: u32, fkeys: Seq<u32>) -> Option<
    (WaxSequenceModel, Seq<u32>),
> {
    match zero_terminated_u32s(data, off + 16, 32) {
        None => None,
        Some(frame_offs) => {
            let folded = fold_keys(frame_offs, fkeys);
            Some((WaxSequenceModel { offset: off as int, frame_indices: folded.0 }, folded.1))
        },
    }
}

/// The sequence records for every discovered sequence offset.
pub open spec fn wax_sequences(data: Seq<u8>, skeys: Seq<u32>, fkeys: Seq<u32>) -> Option<
    (Seq<WaxSequenceModel>, Seq<u32>),
>
    decreases skeys.len(),
{
    if skeys.len() == 0 {
        Some((Seq::empty(), fkeys))
    } else {
        match wax_sequence_at(data, skeys[0], fkeys) {
            None => None,
            Some((s, fkeys1)) => match wax_sequences(data, skeys.drop_first(), fkeys1) {
                None => None,
                Some((rest, fkeys2)) => Some((seq![s] + rest, fkeys2)),
            },
        }
    }
}

/// The frame record at `off`: placement metadata and a cell offset,
/// folded through the cell map.
pub open spec fn wax_frame_at(data: Seq<u8>, off: u32, ckeys: Seq<u32>) -> Option<
    (WaxFrameModel, Seq<u32>),
> {
    match frame_at(data, off as int) {
        None => None,
        Some(f) => {
            if off + 16 > data.len() {
                None
            } else {
                let cell_off = le_value(data.subrange(off + 12, off + 16)) as u32;
                let folded = add_key(ckeys, cell_off);
                Some(
                    (WaxFrameModel { offset: off as int, frame: f, cell_index: folded.1 }, folded.0),
                )
            }
        },
    }
}

/// The frame records for every discovered frame offset.
pub open spec fn wax_frames(data: Seq<u8>, fkeys: Seq<u32>, ckeys: Seq<u32>) -> Option<
    (Seq<WaxFrameModel>, Seq<u32>),
>
    decreases fkeys.len(),
{
    if fkeys.len() == 0 {
        Some((Seq::empty(), ckeys))
    } else {
        match wax_frame_at(data, fkeys[0], ckeys) {
            None => None,
            Some((f, ckeys1)) => match wax_frames(data, fkeys.drop_first(), ckeys1) {
                None => None,
                Some((rest, ckeys2)) => Some((seq![f] + rest, ckeys2)),
            },
        }
    }
}

/// How reading the cell arena can end.
pub ghost enum WaxCells {
    Truncated,
    BadDataOffset,
    SizeMismatch,
    Cells(Seq<CellModel>),
}

/// The cell records for every discovered cell offset, in discovery order.
pub open spec fn wax_cells(data: Seq<u8>, ckeys: Seq<u32>) -> WaxCells
    decreases ckeys.len(),
{
    if ckeys.len() == 0 {
        WaxCells::Cells(Seq::empty())
    } else {
        match cell_parse(data, ckeys[0] as int) {
            CellParse::Truncated => WaxCells::Truncated,
            CellParse::BadDataOffset => WaxCells::BadDataOffset,
            CellParse::SizeMismatch => WaxCells::SizeMismatch,
            CellParse::Cell(c) => match wax_cells(data, ckeys.drop_first()) {
                WaxCells::Truncated => WaxCells::Truncated,
                WaxCells::BadDataOffset => WaxCells::BadDataOffset,
                WaxCells::SizeMismatch => WaxCells::SizeMismatch,
                WaxCells::Cells(rest) => WaxCells::Cells(seq![c] + rest),
            },
        }
    }
}

/// The whole atlas: header, discovery of states, sequences, frames and
/// cells, each arena deduplicated by offset.
pub open spec fn wax_parse(data: Seq<u8>) -> WaxParse {
    if data.len() < 32 {
        WaxParse::Truncated
    } else {
        match zero_terminated_u32s(data, 32, 32) {
            None => WaxParse::Truncated,
            Some(state_offs) => match wax_states(data, state_offs, Seq::empty()) {
                None => WaxParse::Truncated,
                Some((states, skeys)) => match wax_sequences(data, skeys, Seq::empty()) {
                    None => WaxParse::Truncated,
                    Some((sequences, fkeys)) => match wax_frames(data, fkeys, Seq::empty()) {
                        None => WaxParse::Truncated,
                        Some((frames, ckeys)) => match wax_cells(data, ckeys) {
                            WaxCells::Truncated => WaxParse::Truncated,
                            WaxCells::BadDataOffset => WaxParse::BadDataOffset,
                            WaxCells::SizeMismatch => WaxParse::SizeMismatch,
                            WaxCells::Cells(cells) => WaxParse::Parsed(
                                WaxModel {
                                    version: le_value(data.subrange(0, 4)),
                                    num_sequences: le_value(data.subrange(4, 8)),
                                    num_frames: le_value(data.subrange(8, 12)),
                                    num_cells: le_value(data.subrange(12, 16)),
                                    states,
                                    sequences,
                                    frames,
                                    cells,
                                },
                            ),
                        },
                    },
                },
            },
        }
    }
}

/// One atlas state: world-space size, frame rate, and one sequence slot
/// per view angle.
pub struct WaxState {
    pub offset: u32,
    pub world_size: Vec2u32,
    pub frame_rate: u32,
    pub angle_sequence_indices: Vec<usize>,
}

impl View for WaxState {
    type V = WaxStateModel;

    open spec fn view(&self) -> WaxStateModel {
        WaxStateModel {
            offset: self.offset as int,
            world_w: self.world_size.x as int,
            world_h: self.world_size.y as int,
            frame_rate: self.frame_rate as int,
            angle_sequence_indices: self.angle_sequence_indices@.map_values(|i: usize| i as int),
        }
    }
}

/// One animation sequence: the arena slots of its frames.
pub struct WaxSequence {
    pub offset: u32,
    pub frame_indices: Vec<usize>,
}

impl View for WaxSequence {
    type V = WaxSequenceModel;

    open spec fn view(&self) -> WaxSequenceModel {
        WaxSequenceModel {
            offset: self.offset as int,
            frame_indices: self.frame_indices@.map_values(|i: usize| i as int),
        }
    }
}

/// One frame: placement metadata and its cell's arena slot.
pub struct WaxFrame {
    pub offset: u32,
    pub frame: fme::Frame,
    pub cell_index: usize,
}

impl View for WaxFrame {
    type V = WaxFrameModel;

    open spec fn view(&self) -> WaxFrameModel {
        WaxFrameModel {
            offset: self.offset as int,
            frame: self.frame,
            cell_index: self.cell_index as int,
        }
    }
}

/// A decoded atlas: header counts and the four deduplicated arenas.
pub struct Wax {
    pub version: u32,
    pub num_sequences: u32,
    pub num_frames: u32,
    pub num_cells: u32,
    pub states: Vec<WaxState>,
    pub sequences: Vec<WaxSequence>,
    pub frames: Vec<WaxFrame>,
    pub cells: Vec<fme::Cell>,
}

impl View for Wax {
    type V = WaxModel;

    open spec fn view(&self) -> WaxModel {
        WaxModel {
            version: self.version as int,
            num_sequences: self.num_sequences as int,
            num_frames: self.num_frames as int,
            num_cells: self.num_cells as int,
            states: self.states@.map_values(|s: WaxState| s@),
            sequences: self.sequences@.map_values(|s: WaxSequence| s@),
            frames: self.frames@.map_values(|f: WaxFrame| f@),
            cells: self.cells@.map_values(|c: fme::Cell| c@),
        }
    }
}

/// Reads 32-bit words at the cursor until a zero word or `max` of them;
/// the cursor is left after the last word read.
#[verifier::loop_isolation(false)]
fn read_zero_terminated(input: &mut Reader<'_>, max: u32) -> (r: ReadResult<Vec<u32>>)
    ensures
        final(input).data@ == old(input).data@,
        match r {
            Ok(v) => zero_terminated_u32s(old(input).data@, old(input).pos as int, max as int)
                == Some(v@),
            Err(e) => {
                &&& e == ReadError::IO
                &&& zero_terminated_u32s(old(input).data@, old(input).pos as int, max as int)
                    is None
            },
        },
{
    let ghost d0 = input.data@;
    let ghost p0 = input.pos as int;
    let mut out: Vec<u32> = Vec::new();
    let mut k: u32 = 0;
    while k < max
        invariant
            k <= max,
            input.data@ == d0,
            out@.len() == k,
            match zero_terminated_u32s(d0, input.pos as int, max - k) {
                None => zero_terminated_u32s(d0, p0, max as int) is None,
                Some(rest) => zero_terminated_u32s(d0, p0, max as int) == Some(out@ + rest),
            },
        decreases max - k,
    {
        let ghost out_before = out@;
        match read_u32(input) {
            Ok(v) => {
                if v == 0 {
                    proof {
                        assert(out@ + Seq::<u32>::empty() =~= out@);
                    }
                    return Ok(out);
                }
                out.push(v);
                proof {
                    match zero_terminated_u32s(d0, input.pos as int, max - k - 1) {
                        None => {},
                        Some(rest) => {
                            assert(out@ + rest =~= out_before + (seq![v] + rest));
                        },
                    }
                }
                k += 1;
            },
            Err(_) => {
                return Err(ReadError::IO);
            },
        }
    }
    proof {
        assert(out@ + Seq::<u32>::empty() =~= out@);
    }
    Ok(out)
}

impl Wax {
    /// Reads the state record at `off`, resolving its angle words through
    /// the sequence map.
    #[verifier::loop_isolation(false)]
    fn read_state(input: &mut Reader<'_>, off: u32, map: &mut IndexMap) -> (r: ReadResult<
        WaxState,
    >)
        ensures
            final(input).data@ == old(input).data@,
            match r {
                Ok(s) => ({
                    let parsed = wax_state_at(old(input).data@, off as int, old(map).keys@);
                    &&& parsed == Some((s@, final(map).keys@))
                }),
                Err(e) => {
                    &&& e == ReadError::IO
                    &&& wax_state_at(old(input).data@, off as int, old(map).keys@) is None
                },
            },
    {
        let ghost d0 = input.data@;
        let ghost keys0 = map.keys@;
        input.seek(off as usize);
        let world_size = read_vec2_u32(input)?;
        let frame_rate = match read_u32(input) {
            Ok(v) => v,
            Err(_) => {
                return Err(ReadError::IO);
            },
        };
        let mut skip: u32 = 0;
        while skip < 4
            invariant
                skip <= 4,
                input.data@ == d0,
                input.pos == off + 12 + 4 * skip,
                map.keys@ == keys0,
            decreases 4 - skip,
        {
            match read_u32(input) {
                Ok(_) => {},
                Err(_) => {
                    return Err(ReadError::IO);
                },
            }
            skip += 1;
        }

        let ghost raw = state_angles_raw(d0, off as int);
        let mut angle_sequence_indices: Vec<usize> = Vec::new();
        proof {
            assert(raw.skip(0) =~= raw);
            assert(Seq::<int>::empty() + fold_keys(raw, keys0).0 =~= fold_keys(raw, keys0).0);
        }
        let mut a: u32 = 0;
        while a < 32
            invariant
                a <= 32,
                input.data@ == d0,
                input.pos == off + 28 + 4 * a,
                a > 0 ==> input.pos <= d0.len(),
                angle_sequence_indices@.len() == a,
                ({
                    let total = fold_keys(raw, keys0);
                    let rest = fold_keys(raw.skip(a as int), map.keys@);
                    &&& total.0 == angle_sequence_indices@.map_values(|i: usize| i as int) + rest.0
                    &&& total.1 == rest.1
                }),
            decreases 32 - a,
        {
            let ghost indices_before = angle_sequence_indices@;
            let ghost keys_before = map.keys@;
            let v = match read_u32(input) {
                Ok(v) => v,
                Err(_) => {
                    return Err(ReadError::IO);
                },
            };
            let idx = map.add_index(v);
            angle_sequence_indices.push(idx);
            proof {
                assert(raw.skip(a as int)[0] == raw[a as int]);
                assert(v == raw[a as int]);
                assert(raw.skip(a as int).drop_first() =~= raw.skip(a + 1));
                let rest_now = fold_keys(raw.skip(a + 1), map.keys@);
                assert(angle_sequence_indices@.map_values(|i: usize| i as int) + rest_now.0
                    =~= indices_before.map_values(|i: usize| i as int) + (seq![idx as int]
                    + rest_now.0));
            }
            a += 1;
        }
        proof {
            assert(raw.skip(32) =~= Seq::<u32>::empty());
            assert(fold_keys(raw, keys0).0 =~= angle_sequence_indices@.map_values(
                |i: usize| i as int,
            ) + Seq::<int>::empty());
            assert(angle_sequence_indices@.map_values(|i: usize| i as int) + Seq::<int>::empty()
                =~= angle_sequence_indices@.map_values(|i: usize| i as int));
        }
        Ok(WaxState { offset: off, world_size, frame_rate, angle_sequence_indices })
    }

    /// Reads the sequence record at `off`, resolving its frame offsets
    /// through the frame map.
    #[verifier::loop_isolation(false)]
    fn read_sequence(input: &mut Reader<'_>, off: u32, map: &mut IndexMap) -> (r: ReadResult<
        WaxSequence,
    >)
        ensures
            final(input).data@ == old(input).data@,
            match r {
                Ok(s) => wax_sequence_at(old(input).data@, off, old(map).keys@) == Some(
                    (s@, final(map).keys@),
                ),
                Err(e) => {
                    &&& e == ReadError::IO
                    &&& wax_sequence_at(old(input).data@, off, old(map).keys@) is None
                },
            },
    {
        let ghost d0 = input.data@;
        let ghost keys0 = map.keys@;
        let dlen = input.data.len();
        let start: u64 = off as u64 + 16;
        if start >= dlen as u64 {
            proof {
                assert(zero_terminated_u32s(d0, off + 16, 32) is None);
            }
            return Err(ReadError::IO);
        }
        input.seek(start as usize);
        let frame_offs = match read_zero_terminated(input, 32) {
            Ok(v) => v,
            Err(_) => {
                return Err(ReadError::IO);
            },
        };

        let mut frame_indices: Vec<usize> = Vec::new();
        proof {
            assert(frame_offs@.skip(0) =~= frame_offs@);
            assert(Seq::<int>::empty() + fold_keys(frame_offs@, keys0).0 =~= fold_keys(
                frame_offs@,
                keys0,
            ).0);
        }
        let mut j: usize = 0;
        let n = frame_offs.len();
        while j < n
            invariant
                j <= n,
                n == frame_offs@.len(),
                frame_indices@.len() == j,
                ({
                    let total = fold_keys(frame_offs@, keys0);
                    let rest = fold_keys(frame_offs@.skip(j as int), map.keys@);
                    &&& total.0 == frame_indices@.map_values(|i: usize| i as int) + rest.0
                    &&& total.1 == rest.1
                }),
            decreases n - j,
        {
            let ghost indices_before = frame_indices@;
            let v = frame_offs[j];
            let idx = map.add_index(v);
            frame_indices.push(idx);
            proof {
                assert(frame_offs@.skip(j as int)[0] == frame_offs@[j as int]);
                assert(frame_offs@.skip(j as int).drop_first() =~= frame_offs@.skip(j + 1));
                let rest_now = fold_keys(frame_offs@.skip(j + 1), map.keys@);
                assert(frame_indices@.map_values(|i: usize| i as int) + rest_now.0
                    =~= indices_before.map_values(|i: usize| i as int) + (seq![idx as int]
                    + rest_now.0));
            }
            j += 1;
        }
        proof {
            assert(frame_offs@.skip(n as int) =~= Seq::<u32>::empty());
            assert(frame_indices@.map_values(|i: usize| i as int) + Seq::<int>::empty()
                =~= frame_indices@.map_values(|i: usize| i as int));
        }
        Ok(WaxSequence { offset: off, frame_indices })
    }

    /// Reads the frame record at `off`, resolving its cell offset through
    /// the cell map.
    fn read_frame(input: &mut Reader<'_>, off: u32, map: &mut IndexMap) -> (r: ReadResult<
        WaxFrame,
    >)
        ensures
            final(input).data@ == old(input).data@,
            match r {
                Ok(f) => wax_frame_at(old(input).data@, off, old(map).keys@) == Some(
                    (f@, final(map).keys@),
                ),
                Err(e) => {
                    &&& e == ReadError::IO
                    &&& wax_frame_at(old(input).data@, off, old(map).keys@) is None
                    &&& final(map).keys@ == old(map).keys@
                },
            },
    {
        input.seek(off as usize);
        let frame = fme::Frame::read(input)?;
        let cell_offset = match read_u32(input) {
            Ok(v) => v,
            Err(_) => {
                return Err(ReadError::IO);
            },
        };
        let cell_index = map.add_index(cell_offset);
        Ok(WaxFrame { offset: off, frame, cell_index })
    }

    /// Reads a whole atlas image, deduplicating shared sub-records by
    /// their file offset.
    #[verifier::loop_isolation(false)]
    pub fn read(data: &[u8]) -> (r: ReadResult<Wax>)
        ensures
            match r {
                Ok(w) => wax_parse(data@) == WaxParse::Parsed(w@),
                Err(e) => match e {
                    ReadError::IO => wax_parse(data@) == WaxParse::Truncated,
                    ReadError::Decoding(_) => wax_parse(data@) == WaxParse::BadDataOffset
                        || wax_parse(data@) == WaxParse::SizeMismatch,
                    ReadError::Signature => false,
                },
            },
    {
        let ghost d0 = data@;
        let mut input = Reader::new(data);
        let version = read_u32(&mut input)?;
        let num_sequences = read_u32(&mut input)?;
        let num_frames = read_u32(&mut input)?;
        let num_cells = read_u32(&mut input)?;
        let mut skip: u32 = 0;
        while skip < 4
            invariant
                skip <= 4,
                input.data@ == d0,
                input.pos == 16 + 4 * skip,
            decreases 4 - skip,
        {
            match read_u32(&mut input) {
                Ok(_) => {},
                Err(_) => {
                    return Err(ReadError::IO);
                },
            }
            skip += 1;
        }

        let state_offsets = match read_zero_terminated(&mut input, 32) {
            Ok(v) => v,
            Err(_) => {
                return Err(ReadError::IO);
            },
        };

        // States, discovering sequence offsets.
        let mut seq_map = IndexMap::with_capacity(num_sequences as usize);
        let mut states: Vec<WaxState> = Vec::new();
        let ghost soffs = state_offsets@;
        proof {
            assert(soffs.skip(0) =~= soffs);
            match wax_states(d0, soffs, Seq::empty()) {
                None => {},
                Some((rest, fk)) => {
                    assert(Seq::<WaxStateModel>::empty() + rest =~= rest);
                },
            }
        }
        let mut i: usize = 0;
        let n_states = state_offsets.len();
        while i < n_states
            invariant
                i <= n_states,
                n_states == soffs.len(),
                input.data@ == d0,
                state_offsets@ == soffs,
                states@.len() == i,
                match wax_states(d0, soffs.skip(i as int), seq_map.keys@) {
                    None => wax_states(d0, soffs, Seq::empty()) is None,
                    Some((rest, fk)) => wax_states(d0, soffs, Seq::empty()) == Some(
                        (states@.map_values(|s: WaxState| s@) + rest, fk),
                    ),
                },
            decreases n_states - i,
        {
            let ghost states_before = states@;
            match Self::read_state(&mut input, state_offsets[i], &mut seq_map) {
                Ok(s) => {
                    let ghost sm = s@;
                    states.push(s);
                    proof {
                        assert(soffs.skip(i as int)[0] == soffs[i as int]);
                        assert(soffs.skip(i as int).drop_first() =~= soffs.skip(i + 1));
                        match wax_states(d0, soffs.skip(i + 1), seq_map.keys@) {
                            None => {},
                            Some((rest, fk)) => {
                                assert(states@.map_values(|s: WaxState| s@) + rest
                                    =~= states_before.map_values(|s: WaxState| s@) + (seq![sm]
                                    + rest));
                            },
                        }
                    }
                    i += 1;
                },
                Err(_) => {
                    proof {
                        assert(soffs.skip(i as int)[0] == soffs[i as int]);
                        assert(wax_states(d0, soffs.skip(i as int), seq_map.keys@) is None);
                    }
                    return Err(ReadError::IO);
                },
            }
        }
        proof {
            assert(soffs.skip(n_states as int) =~= Seq::<u32>::empty());
            assert(states@.map_values(|s: WaxState| s@) + Seq::<WaxStateModel>::empty()
                =~= states@.map_values(|s: WaxState| s@));
        }

        // Sequences, discovering frame offsets.
        let skeys_vec = seq_map.keys;
        let ghost skeys = skeys_vec@;
        let mut frame_map = IndexMap::with_capacity(num_frames as usize);
        let mut sequences: Vec<WaxSequence> = Vec::new();
        proof {
            assert(skeys.skip(0) =~= skeys);
            match wax_sequences(d0, skeys, Seq::empty()) {
                None => {},
                Some((rest, fk)) => {
                    assert(Seq::<WaxSequenceModel>::empty() + rest =~= rest);
                },
            }
        }
        let mut i2: usize = 0;
        let n_seqs = skeys_vec.len();
        while i2 < n_seqs
            invariant
                i2 <= n_seqs,
                n_seqs == skeys.len(),
                input.data@ == d0,
                skeys_vec@ == skeys,
                sequences@.len() == i2,
                match wax_sequences(d0, skeys.skip(i2 as int), frame_map.keys@) {
                    None => wax_sequences(d0, skeys, Seq::empty()) is None,
                    Some((rest, fk)) => wax_sequences(d0, skeys, Seq::empty()) == Some(
                        (sequences@.map_values(|s: WaxSequence| s@) + rest, fk),
                    ),
                },
            decreases n_seqs - i2,
        {
            let ghost seqs_before = sequences@;
            match Self::read_sequence(&mut input, skeys_vec[i2], &mut frame_map) {
                Ok(s) => {
                    let ghost sm = s@;
                    sequences.push(s);
                    proof {
                        assert(skeys.skip(i2 as int)[0] == skeys[i2 as int]);
                        assert(skeys.skip(i2 as int).drop_first() =~= skeys.skip(i2 + 1));
                        match wax_sequences(d0, skeys.skip(i2 + 1), frame_map.keys@) {
                            None => {},
                            Some((rest, fk)) => {
                                assert(sequences@.map_values(|s: WaxSequence| s@) + rest
                                    =~= seqs_before.map_values(|s: WaxSequence| s@) + (seq![sm]
                                    + rest));
                            },
                        }
                    }
                    i2 += 1;
                },
                Err(_) => {
                    proof {
                        assert(skeys.skip(i2 as int)[0] == skeys[i2 as int]);
                        assert(wax_sequences(d0, skeys.skip(i2 as int), frame_map.keys@) is None);
                    }
                    return Err(ReadError::IO);
                },
            }
        }
        proof {
            assert(skeys.skip(n_seqs as int) =~= Seq::<u32>::empty());
            assert(sequences@.map_values(|s: WaxSequence| s@) + Seq::<WaxSequenceModel>::empty()
                =~= sequences@.map_values(|s: WaxSequence| s@));
        }

        // Frames, discovering cell offsets.
        let fkeys_vec = frame_map.keys;
        let ghost fkeys = fkeys_vec@;
        let mut cell_map = IndexMap::with_capacity(num_cells as usize);
        let mut frames: Vec<WaxFrame> = Vec::new();
        proof {
            assert(fkeys.skip(0) =~= fkeys);
            match wax_frames(d0, fkeys, Seq::empty()) {
                None => {},
                Some((rest, ck)) => {
                    assert(Seq::<WaxFrameModel>::empty() + rest =~= rest);
                },
            }
        }
        let mut i3: usize = 0;
        let n_frames = fkeys_vec.len();
        while i3 < n_frames
            invariant
                i3 <= n_frames,
                n_frames == fkeys.len(),
                input.data@ == d0,
                fkeys_vec@ == fkeys,
                frames@.len() == i3,
                match wax_frames(d0, fkeys.skip(i3 as int), cell_map.keys@) {
                    None => wax_frames(d0, fkeys, Seq::empty()) is None,
                    Some((rest, ck)) => wax_frames(d0, fkeys, Seq::empty()) == Some(
                        (frames@.map_values(|f: WaxFrame| f@) + rest, ck),
                    ),
                },
            decreases n_frames - i3,
        {
            let ghost frames_before = frames@;
            match Self::read_frame(&mut input, fkeys_vec[i3], &mut cell_map) {
                Ok(f) => {
                    let ghost fm = f@;
                    frames.push(f);
                    proof {
                        assert(fkeys.skip(i3 as int)[0] == fkeys[i3 as int]);
                        assert(fkeys.skip(i3 as int).drop_first() =~= fkeys.skip(i3 + 1));
                        match wax_frames(d0, fkeys.skip(i3 + 1), cell_map.keys@) {
                            None => {},
                            Some((rest, ck)) => {
                                assert(frames@.map_values(|f: WaxFrame| f@) + rest
                                    =~= frames_before.map_values(|f: WaxFrame| f@) + (seq![fm]
                                    + rest));
                            },
                        }
                    }
                    i3 += 1;
                },
                Err(_) => {
                    proof {
                        assert(fkeys.skip(i3 as int)[0] == fkeys[i3 as int]);
                        assert(wax_frames(d0, fkeys.skip(i3 as int), cell_map.keys@) is None);
                    }
                    return Err(ReadError::IO);
                },
            }
        }
        proof {
            assert(fkeys.skip(n_frames as int) =~= Seq::<u32>::empty());
            assert(frames@.map_values(|f: WaxFrame| f@) + Seq::<WaxFrameModel>::empty()
                =~= frames@.map_values(|f: WaxFrame| f@));
        }

        // Cells, in discovery order.
        let ckeys_vec = cell_map.keys;
        let ghost ckeys = ckeys_vec@;
        let mut cells: Vec<fme::Cell> = Vec::new();
        proof {
            assert(ckeys.skip(0) =~= ckeys);
            match wax_cells(d0, ckeys) {
                WaxCells::Cells(rest) => {
                    assert(Seq::<CellModel>::empty() + rest =~= rest);
                },
                _ => {},
            }
        }
        let mut i4: usize = 0;
        let n_cells = ckeys_vec.len();
        while i4 < n_cells
            invariant
                i4 <= n_cells,
                n_cells == ckeys.len(),
                input.data@ == d0,
                ckeys_vec@ == ckeys,
                cells@.len() == i4,
                match wax_cells(d0, ckeys.skip(i4 as int)) {
                    WaxCells::Cells(rest) => wax_cells(d0, ckeys) == WaxCells::Cells(
                        cells@.map_values(|c: fme::Cell| c@) + rest,
                    ),
                    other => wax_cells(d0, ckeys) == other,
                },
            decreases n_cells - i4,
        {
            let ghost cells_before = cells@;
            match fme::Cell::read(&mut input, ckeys_vec[i4]) {
                Ok(c) => {
                    let ghost cm = c@;
                    cells.push(c);
                    proof {
                        assert(ckeys.skip(i4 as int)[0] == ckeys[i4 as int]);
                        assert(ckeys.skip(i4 as int).drop_first() =~= ckeys.skip(i4 + 1));
                        match wax_cells(d0, ckeys.skip(i4 + 1)) {
                            WaxCells::Cells(rest) => {
                                assert(cells@.map_values(|c: fme::Cell| c@) + rest
                                    =~= cells_before.map_values(|c: fme::Cell| c@) + (seq![cm]
                                    + rest));
                            },
                            _ => {},
                        }
                    }
                    i4 += 1;
                },
                Err(e) => {
                    proof {
                        assert(ckeys.skip(i4 as int)[0] == ckeys[i4 as int]);
                    }
                    return Err(
                        match e {
                            ReadError::IO => ReadError::IO,
                            ReadError::Decoding(msg) => ReadError::Decoding(msg),
                            ReadError::Signature => ReadError::IO,
                        },
                    );
                },
            }
        }
        proof {
            assert(ckeys.skip(n_cells as int) =~= Seq::<u32>::empty());
            assert(cells@.map_values(|c: fme::Cell| c@) + Seq::<CellModel>::empty()
                =~= cells@.map_values(|c: fme::Cell| c@));
        }

        Ok(Wax { version, num_sequences, num_frames, num_cells, states, sequences, frames, cells })
    }
}

} // verus!
