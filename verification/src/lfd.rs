//! The sequential archive container: self-describing records of a 4-byte
//! type code, an 8-byte NUL-padded name, a length, and the payload, until
//! the end of the stream.

use vstd::prelude::*;

use crate::common::{
    le_value, nul_truncate, read_u32, read_vec, truncate_at_nul, Catalog, CatalogEntry,
    CatalogEntryModel, Reader,
};
use crate::error::{ReadError, ReadResult};

verus! {

/// The logical name of the record at `pos`: its NUL-truncated 8-byte name,
/// a dot, and its raw 4-byte type code.
pub open spec fn lfd_entry_name(data: Seq<u8>, pos: int) -> Seq<u8> {
    nul_truncate(data.subrange(pos + 4, pos + 12)) + seq![0x2Eu8] + data.subrange(pos, pos + 4)
}

/// The records from `pos` to the end of the stream. An entry's offset is
/// the start of its record, header included. A record whose header is cut
/// short is a truncation (`None`); a stream that ends exactly at a record
/// boundary is complete, and so is one whose last payload runs past the
/// end, as skipping it just reaches the end of the stream.
pub open spec fn lfd_parse_at(data: Seq<u8>, pos: int) -> Option<Seq<CatalogEntryModel>>
    decreases data.len() - pos,
    via lfd_parse_at_decreases
{
    if pos >= data.len() {
        Some(Seq::empty())
    } else if pos + 16 > data.len() {
        None
    } else {
        let length = le_value(data.subrange(pos + 12, pos + 16));
        let e = CatalogEntryModel {
            name: lfd_entry_name(data, pos),
            offset: pos,
            length: length,
        };
        let next = pos + 16 + length;
        if next >= data.len() {
            Some(seq![e])
        } else {
            match lfd_parse_at(data, next) {
                None => None,
                Some(rest) => Some(seq![e] + rest),
            }
        }
    }
}

#[via_fn]
proof fn lfd_parse_at_decreases(data: Seq<u8>, pos: int) {
    crate::common::lemma_le_value_bound(data.subrange(pos + 12, pos + 16));
}

/// Reads the catalog of a whole sequential container image.
#[verifier::loop_isolation(false)]
pub fn read(data: &[u8]) -> (r: ReadResult<Catalog>)
    requires
        data@.len() <= u32::MAX,
    ensures
        match r {
            Ok(c) => lfd_parse_at(data@, 0) == Some(c@),
            Err(e) => {
                &&& e == ReadError::IO
                &&& lfd_parse_at(data@, 0) is None
            },
        },
{
    let ghost d0 = data@;
    let dlen = data.len();
    let mut input = Reader::new(data);
    let mut entries: Vec<CatalogEntry> = Vec::new();

    while input.pos < dlen
        invariant
            input.data@ == d0,
            input.pos <= dlen,
            match lfd_parse_at(d0, input.pos as int) {
                None => lfd_parse_at(d0, 0) is None,
                Some(rest) => lfd_parse_at(d0, 0) == Some(
                    entries@.map_values(|e: CatalogEntry| e@) + rest,
                ),
            },
        decreases dlen - input.pos,
    {
        let rec_start = input.pos;
        let ghost pos0 = input.pos as int;
        let ghost entries_before = entries@;
        if dlen - input.pos < 16 {
            return Err(ReadError::IO);
        }
        let mut ty = read_vec(&mut input, 4)?;
        let raw_name = read_vec(&mut input, 8)?;
        let length = read_u32(&mut input)?;

        let mut name = truncate_at_nul(raw_name);
        name.push(0x2E);
        name.append(&mut ty);
        proof {
            assert(name@ =~= lfd_entry_name(d0, pos0));
        }
        entries.push(CatalogEntry { name, offset: rec_start as u32, length });

        let next: u64 = rec_start as u64 + 16 + length as u64;
        if next >= dlen as u64 {
            input.seek(dlen);
        } else {
            input.seek(next as usize);
        }
        proof {
            let m = CatalogEntryModel {
                name: lfd_entry_name(d0, pos0),
                offset: pos0,
                length: length as int,
            };
            match lfd_parse_at(d0, input.pos as int) {
                None => {},
                Some(rest) => {
                    assert(entries@.map_values(|e: CatalogEntry| e@) + rest
                        =~= entries_before.map_values(|e: CatalogEntry| e@) + (seq![m] + rest));
                },
            }
        }
    }
    proof {
        assert(entries@.map_values(|e: CatalogEntry| e@) + Seq::<CatalogEntryModel>::empty()
            =~= entries@.map_values(|e: CatalogEntry| e@));
    }
    Ok(Catalog { entries })
}

} // verus!
