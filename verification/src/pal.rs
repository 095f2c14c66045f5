//! The palette format: a fixed 768-byte table of 256 red/green/blue
//! triples on the raw 0..63 scale, expanded to 8-bit channels on demand.

use vstd::prelude::*;

use crate::common::{read_vec, Reader};
use crate::error::{ReadError, ReadResult};

verus! {

/// The 8-bit expansion of a 6-bit color channel: the six payload bits are
/// shifted high and their top two bits repeated below, so that 0 stays 0
/// and 63 becomes 255.
pub open spec fn channel_expand(v: u8) -> u8 {
    (v << 2) | (v >> 4)
}

/// Expands a 6-bit color channel to 8 bits.
pub fn channel_6_to_8_bit(value: u8) -> (r: u8)
    ensures
        r == channel_expand(value),
        value < 64 ==> r == 4 * (value as int) + (value as int) / 16,
{
    proof {
        assert(value < 64 ==> ((value << 2) | (value >> 4)) == 4 * (value as int) + (value as int)
            / 16) by (bit_vector);
    }
    value << 2 | value >> 4
}

/// One palette slot, each channel on the raw 0..63 scale.
#[derive(Clone, Copy, Debug, PartialEq, Eq, Structural)]
pub struct Entry {
    pub r: u8,
    pub g: u8,
    pub b: u8,
}

impl Entry {
    /// The slot's channels expanded to the 8-bit scale.
    pub fn to_rgb(self) -> (rgb: (u8, u8, u8))
        ensures
            rgb.0 == channel_expand(self.r),
            rgb.1 == channel_expand(self.g),
            rgb.2 == channel_expand(self.b),
    {
        (channel_6_to_8_bit(self.r), channel_6_to_8_bit(self.g), channel_6_to_8_bit(self.b))
    }
}

/// A full 256-entry palette. Entry 0 is conventionally treated as
/// transparent by image consumers; the palette itself does not enforce
/// that.
pub struct Pal {
    pub entries: Vec<Entry>,
}

impl Pal {
    /// A palette is well formed when it holds exactly 256 entries.
    pub open spec fn wf(&self) -> bool {
        self.entries@.len() == 256
    }

    /// Reads 768 raw bytes as 256 red/green/blue triples, field by field.
    pub fn read(input: &mut Reader<'_>) -> (r: ReadResult<Pal>)
        ensures
            final(input).data@ == old(input).data@,
            match r {
                Ok(p) => {
                    &&& old(input).pos + 768 <= old(input).data@.len()
                    &&& p.wf()
                    &&& forall|i: int|
                        0 <= i < 256 ==> {
                            &&& (#[trigger] p.entries@[i]).r == old(input).data@[old(input).pos + 3
                                * i]
                            &&& p.entries@[i].g == old(input).data@[old(input).pos + 3 * i + 1]
                            &&& p.entries@[i].b == old(input).data@[old(input).pos + 3 * i + 2]
                        }
                    &&& final(input).pos == old(input).pos + 768
                },
                Err(e) => {
                    &&& e == ReadError::IO
                    &&& old(input).pos + 768 > old(input).data@.len()
                    &&& final(input).pos == old(input).pos
                },
            },
    {
        let bytes = read_vec(input, 768)?;
        let mut entries: Vec<Entry> = Vec::new();
        let mut i: usize = 0;
        while i < 256
            invariant
                i <= 256,
                bytes@.len() == 768,
                entries@.len() == i,
                forall|j: int|
                    0 <= j < i ==> {
                        &&& (#[trigger] entries@[j]).r == bytes@[3 * j]
                        &&& entries@[j].g == bytes@[3 * j + 1]
                        &&& entries@[j].b == bytes@[3 * j + 2]
                    },
            decreases 256 - i,
        {
            entries.push(Entry { r: bytes[3 * i], g: bytes[3 * i + 1], b: bytes[3 * i + 2] });
            i += 1;
        }
        Ok(Pal { entries })
    }
}

} // verus!
