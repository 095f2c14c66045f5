//! The random-access archive container: a 4-byte magic, a pointer to a
//! trailing directory, and directory entries of offset, length and a
//! 13-byte NUL-padded name.

use vstd::prelude::*;

use crate::common::{
    le_value, nul_truncate, read_u32, read_vec, truncate_at_nul, CatalogEntryModel, Reader,
};
use crate::error::{ReadError, ReadResult};

verus! {

/// How a catalog read of this container can end.
pub ghost enum GobParse {
    /// The magic bytes are not this container's.
    BadMagic,
    /// The input ended before the directory it promises.
    Truncated,
    /// The directory's entries, in file order.
    Entries(Seq<CatalogEntryModel>),
}

/// Whether the input opens with this container's magic bytes.
pub open spec fn gob_magic(data: Seq<u8>) -> bool {
    &&& data.len() >= 4
    &&& data[0] == 0x47u8
    &&& data[1] == 0x4Fu8
    &&& data[2] == 0x42u8
    &&& data[3] == 0x0Au8
}

/// The directory entry at `pos`: offset, length, then a 13-byte name
/// truncated at its first NUL.
pub open spec fn gob_entry_at(data: Seq<u8>, pos: int) -> Option<CatalogEntryModel> {
    if pos < 0 || pos + 21 > data.len() {
        None
    } else {
        Some(
            CatalogEntryModel {
                offset: le_value(data.subrange(pos, pos + 4)),
                length: le_value(data.subrange(pos + 4, pos + 8)),
                name: nul_truncate(data.subrange(pos + 8, pos + 21)),
            },
        )
    }
}

/// The `n` consecutive directory entries starting at `pos`.
pub open spec fn gob_entries(data: Seq<u8>, pos: int, n: int) -> Option<Seq<CatalogEntryModel>>
    decreases n,
{
    if n <= 0 {
        Some(Seq::empty())
    } else {
        match gob_entry_at(data, pos) {
            None => None,
            Some(e) => match gob_entries(data, pos + 21, n - 1) {
                None => None,
                Some(rest) => Some(seq![e] + rest),
            },
        }
    }
}

/// The catalog the whole container declares: magic, directory offset,
/// entry count, entries.
pub open spec fn gob_parse(data: Seq<u8>) -> GobParse {
    if data.len() < 4 {
        GobParse::Truncated
    } else if !gob_magic(data) {
        GobParse::BadMagic
    } else if data.len() < 8 {
        GobParse::Truncated
    } else {
        let cat = le_value(data.subrange(4, 8));
        if cat + 4 > data.len() {
            GobParse::Truncated
        } else {
            let n = le_value(data.subrange(cat, cat + 4));
            match gob_entries(data, cat + 4, n) {
                None => GobParse::Truncated,
                Some(es) => GobParse::Entries(es),
            }
        }
    }
}

/// One directory entry: a name (ASCII bytes) and the byte range the named
/// asset occupies in the container.
pub struct Entry {
    offset: u32,
    length: u32,
    name: Vec<u8>,
}

impl View for Entry {
    type V = CatalogEntryModel;

    closed spec fn view(&self) -> CatalogEntryModel {
        CatalogEntryModel {
            name: self.name@,
            offset: self.offset as int,
            length: self.length as int,
        }
    }
}

impl Entry {
    pub fn offset(&self) -> (r: u32)
        ensures
            r == self@.offset,
    {
        self.offset
    }

    pub fn length(&self) -> (r: u32)
        ensures
            r == self@.length,
    {
        self.length
    }

    pub fn name(&self) -> (r: &Vec<u8>)
        ensures
            r@ == self@.name,
    {
        &self.name
    }

    /// The entry's byte range, cut out of the container it was read from.
    pub fn data(&self, archive: &[u8]) -> (r: ReadResult<Vec<u8>>)
        ensures
            match r {
                Ok(v) => {
                    &&& self@.offset + self@.length <= archive@.len()
                    &&& v@ == archive@.subrange(self@.offset, self@.offset + self@.length)
                },
                Err(e) => {
                    &&& e == ReadError::IO
                    &&& self@.offset + self@.length > archive@.len()
                },
            },
    {
        if (self.offset as u64) + (self.length as u64) > archive.len() as u64 {
            return Err(ReadError::IO);
        }
        let mut input = Reader::new(archive);
        input.seek(self.offset as usize);
        read_vec(&mut input, self.length as usize)
    }
}

/// The directory of an open container, in file order.
pub struct Catalog {
    entries: Vec<Entry>,
}

impl View for Catalog {
    type V = Seq<CatalogEntryModel>;

    closed spec fn view(&self) -> Seq<CatalogEntryModel> {
        self.entries@.map_values(|e: Entry| e@)
    }
}

impl Catalog {
    /// Reads the directory of a whole container image.
    #[verifier::loop_isolation(false)]
    pub fn read(data: &[u8]) -> (r: ReadResult<Catalog>)
        ensures
            match r {
                Ok(c) => gob_parse(data@) == GobParse::Entries(c@),
                Err(e) => match e {
                    ReadError::Signature => gob_parse(data@) == GobParse::BadMagic,
                    ReadError::IO => gob_parse(data@) == GobParse::Truncated,
                    ReadError::Decoding(_) => false,
                },
            },
    {
        let mut input = Reader::new(data);
        let magic = read_vec(&mut input, 4)?;
        if !(magic[0] == 0x47 && magic[1] == 0x4F && magic[2] == 0x42 && magic[3] == 0x0A) {
            return Err(ReadError::Signature);
        }
        let catalog_offset = read_u32(&mut input)?;
        input.seek(catalog_offset as usize);
        let num_entries = match read_u32(&mut input) {
            Ok(v) => v,
            Err(_) => {
                return Err(ReadError::IO);
            },
        };

        let ghost d0 = data@;
        let ghost base = catalog_offset + 4;
        let mut entries: Vec<Entry> = Vec::new();
        let mut i: u32 = 0;
        while i < num_entries
            invariant
                i <= num_entries,
                input.data@ == d0,
                input.pos == base + 21 * i,
                entries@.len() == i,
                match gob_entries(d0, input.pos as int, num_entries - i) {
                    None => gob_entries(d0, base as int, num_entries as int) is None,
                    Some(rest) => gob_entries(d0, base as int, num_entries as int) == Some(
                        entries@.map_values(|e: Entry| e@) + rest,
                    ),
                },
            decreases num_entries - i,
        {
            let ghost pos0 = input.pos as int;
            let entry = Self::read_entry(&mut input);
            match entry {
                Ok(e) => {
                    let ghost entries_before = entries@;
                    entries.push(e);
                    proof {
                        let m = gob_entry_at(d0, pos0)->0;
                        match gob_entries(d0, input.pos as int, num_entries - i - 1) {
                            None => {},
                            Some(rest) => {
                                assert(entries@.map_values(|x: Entry| x@) + rest
                                    =~= entries_before.map_values(|x: Entry| x@) + (seq![m]
                                    + rest));
                            },
                        }
                    }
                    i += 1;
                },
                Err(_) => {
                    proof {
                        assert(gob_entries(d0, pos0, num_entries - i) is None);
                    }
                    return Err(ReadError::IO);
                },
            }
        }
        proof {
            assert(entries@.map_values(|e: Entry| e@) + Seq::<CatalogEntryModel>::empty()
                =~= entries@.map_values(|e: Entry| e@));
        }
        Ok(Catalog { entries })
    }

    /// Reads one directory entry at the cursor.
    fn read_entry(input: &mut Reader<'_>) -> (r: ReadResult<Entry>)
        ensures
            final(input).data@ == old(input).data@,
            match r {
                Ok(e) => {
                    &&& gob_entry_at(old(input).data@, old(input).pos as int) == Some(e@)
                    &&& final(input).pos == old(input).pos + 21
                },
                Err(err) => {
                    &&& err == ReadError::IO
                    &&& gob_entry_at(old(input).data@, old(input).pos as int) is None
                },
            },
    {
        let offset = read_u32(input)?;
        let length = read_u32(input)?;
        let raw_name = read_vec(input, 13)?;
        let name = truncate_at_nul(raw_name);
        Ok(Entry { offset, length, name })
    }

    /// The entries, in file order.
    pub fn entries(&self) -> (r: &Vec<Entry>)
        ensures
            r@.map_values(|e: Entry| e@) == self@,
    {
        &self.entries
    }
}

} // verus!
