//! The digitized-audio container: a fixed signature, a version word
//! guarded by a checksum, then tagged variable-length chunks until a zero
//! type byte.

use vstd::prelude::*;

use crate::common::{le_value, read_u8, read_vec, Reader};
use crate::error::{ReadError, ReadResult};

verus! {

/// What one chunk means.
pub ghost enum ChunkModel {
    SoundStart { sample_rate: u8, codec: u8, data: Seq<u8> },
    SoundContinue { data: Seq<u8> },
    Silence { sample_count: int, sample_rate: u8 },
    Repeat { count: Option<int> },
    RepeatEnd,
    Unknown { ty: u8, len: int },
}

/// How a read of the whole container can end.
pub ghost enum VocParse {
    /// The leading 22 bytes are not this container's signature.
    BadSig,
    /// The checksum word does not match the version word.
    BadCheck,
    /// The input ended inside the header or inside a chunk.
    Truncated,
    /// The version word and the chunks, in stream order.
    Parsed { version: int, chunks: Seq<ChunkModel> },
}

/// The container's 22-byte signature.
pub open spec fn voc_magic() -> Seq<u8> {
    seq![
        0x43u8, 0x72u8, 0x65u8, 0x61u8, 0x74u8, 0x69u8, 0x76u8, 0x65u8, 0x20u8, 0x56u8, 0x6Fu8,
        0x69u8, 0x63u8, 0x65u8, 0x20u8, 0x46u8, 0x69u8, 0x6Cu8, 0x65u8, 0x1Au8, 0x1Au8, 0x00u8,
    ]
}

/// The checksum the version word must carry: its bitwise complement plus
/// 0x1234, modulo 2^16.
pub open spec fn voc_version_check(version: int) -> int {
    ((0xFFFF - version) + 0x1234) % 0x10000
}

/// What a chunk's payload means, given its type byte and declared length.
/// `None` means the payload is shorter than the type requires.
pub open spec fn chunk_model(ty: u8, len: int, content: Seq<u8>) -> Option<ChunkModel> {
    if ty == 1 {
        if len < 2 {
            None
        } else {
            Some(
                ChunkModel::SoundStart {
                    sample_rate: content[0],
                    codec: content[1],
                    data: content.subrange(2, len),
                },
            )
        }
    } else if ty == 2 {
        Some(ChunkModel::SoundContinue { data: content })
    } else if ty == 3 {
        if len < 3 {
            None
        } else {
            Some(
                ChunkModel::Silence {
                    sample_count: le_value(content.subrange(0, 2)),
                    sample_rate: content[2],
                },
            )
        }
    } else if ty == 6 {
        if len < 2 {
            None
        } else {
            let v = le_value(content.subrange(0, 2));
            Some(ChunkModel::Repeat { count: if v == 0xFFFF { None } else { Some(v) } })
        }
    } else if ty == 7 {
        Some(ChunkModel::RepeatEnd)
    } else {
        Some(ChunkModel::Unknown { ty, len })
    }
}

/// One chunk record at `pos`: `None` is a truncation; `Some((None, end))`
/// is the terminating zero type byte; otherwise the chunk and the position
/// after it.
pub open spec fn voc_chunk_at(data: Seq<u8>, pos: int) -> Option<(Option<ChunkModel>, int)> {
    if pos < 0 || pos >= data.len() {
        None
    } else if data[pos] == 0 {
        Some((None, pos + 1))
    } else if pos + 4 > data.len() {
        None
    } else {
        let len = le_value(data.subrange(pos + 1, pos + 4));
        if pos + 4 + len > data.len() {
            None
        } else {
            match chunk_model(data[pos], len, data.subrange(pos + 4, pos + 4 + len)) {
                None => None,
                Some(c) => Some((Some(c), pos + 4 + len)),
            }
        }
    }
}

/// The chunks from `pos` up to the terminating zero type byte.
pub open spec fn voc_chunks(data: Seq<u8>, pos: int) -> Option<Seq<ChunkModel>>
    decreases data.len() - pos,
    via voc_chunks_decreases
{
    match voc_chunk_at(data, pos) {
        None => None,
        Some((None, _)) => Some(Seq::empty()),
        Some((Some(c), next)) => match voc_chunks(data, next) {
            None => None,
            Some(rest) => Some(seq![c] + rest),
        },
    }
}

#[via_fn]
proof fn voc_chunks_decreases(data: Seq<u8>, pos: int) {
    crate::common::lemma_le_value_bound(data.subrange(pos + 1, pos + 4));
}

/// The whole container: signature, version, checksum, chunks.
pub open spec fn voc_parse(data: Seq<u8>) -> VocParse {
    if data.len() < 22 {
        VocParse::Truncated
    } else if data.subrange(0, 22) != voc_magic() {
        VocParse::BadSig
    } else if data.len() < 26 {
        VocParse::Truncated
    } else {
        let version = le_value(data.subrange(22, 24));
        let check = le_value(data.subrange(24, 26));
        if check != voc_version_check(version) {
            VocParse::BadCheck
        } else {
            match voc_chunks(data, 26) {
                None => VocParse::Truncated,
                Some(cs) => VocParse::Parsed { version, chunks: cs },
            }
        }
    }
}

/// A sample rate as the format stores it: one byte `e`, standing for
/// roughly `1_000_000 / (256 - e)` hertz. The encoding is many-to-one, so
/// a rate does not round-trip exactly.
#[derive(Clone, Copy, Debug, PartialEq, Eq, Structural)]
pub struct SampleRate(pub u8);

impl SampleRate {
    /// The rate in hertz this byte stands for.
    pub fn frequency(&self) -> (r: u32)
        ensures
            r == 1_000_000int / (256 - self.0 as int),
    {
        1_000_000u32 / (256u32 - self.0 as u32)
    }

    /// The byte encoding nearest to `hz`: `256 - round(1_000_000 / hz)`.
    /// Rates outside the encodable band have no byte value.
    pub fn from_frequency(hz: u32) -> (r: SampleRate)
        requires
            3922 <= hz <= 2_000_000,
        ensures
            r.0 == 256 - (1_000_000 + hz as int / 2) / (hz as int),
    {
        let rounded = (1_000_000u32 + hz / 2) / hz;
        proof {
            let a = (1_000_000 + hz as int / 2);
            vstd::arithmetic::div_mod::lemma_fundamental_div_mod(a, hz as int);
            assert(1 <= a / (hz as int) <= 255) by (nonlinear_arith)
                requires
                    3922 <= hz as int <= 2_000_000,
                    a == 1_000_000 + hz as int / 2,
                    a == (hz as int) * (a / (hz as int)) + a % (hz as int),
                    0 <= a % (hz as int) < hz as int,
                    0 <= hz as int / 2 <= hz as int,
            ;
        }
        SampleRate((256u32 - rounded) as u8)
    }
}

/// One tagged chunk of the stream.
pub enum Chunk {
    SoundStart { sample_rate: SampleRate, codec: u8, data: Vec<u8> },
    SoundContinue { data: Vec<u8> },
    Silence { sample_count: u16, sample_rate: SampleRate },
    Repeat { count: Option<u16> },
    RepeatEnd,
    Unknown { ty: u8, len: u32 },
}

impl View for Chunk {
    type V = ChunkModel;

    open spec fn view(&self) -> ChunkModel {
        match self {
            Chunk::SoundStart { sample_rate, codec, data } => ChunkModel::SoundStart {
                sample_rate: sample_rate.0,
                codec: *codec,
                data: data@,
            },
            Chunk::SoundContinue { data } => ChunkModel::SoundContinue { data: data@ },
            Chunk::Silence { sample_count, sample_rate } => ChunkModel::Silence {
                sample_count: *sample_count as int,
                sample_rate: sample_rate.0,
            },
            Chunk::Repeat { count } => ChunkModel::Repeat {
                count: match count {
                    Some(c) => Some(*c as int),
                    None => None,
                },
            },
            Chunk::RepeatEnd => ChunkModel::RepeatEnd,
            Chunk::Unknown { ty, len } => ChunkModel::Unknown { ty: *ty, len: *len as int },
        }
    }
}

impl Chunk {
    /// Reads one chunk record at the cursor; `Ok(None)` is the stream's
    /// zero terminator.
    pub fn read(input: &mut Reader<'_>) -> (r: ReadResult<Option<Chunk>>)
        ensures
            final(input).data@ == old(input).data@,
            match r {
                Ok(oc) => ({
                    let at = voc_chunk_at(old(input).data@, old(input).pos as int);
                    &&& at is Some
                    &&& match oc {
                        None => (at->0).0 is None,
                        Some(c) => (at->0).0 == Some(c@),
                    }
                    &&& final(input).pos == (at->0).1
                }),
                Err(e) => {
                    &&& e == ReadError::IO
                    &&& voc_chunk_at(old(input).data@, old(input).pos as int) is None
                },
            },
    {
        let ghost pos0 = old(input).pos as int;
        let ty = read_u8(input)?;
        if ty == 0 {
            return Ok(None);
        }
        let b0 = read_u8(input)?;
        let b1 = read_u8(input)?;
        let b2 = match read_u8(input) {
            Ok(b) => b,
            Err(_) => {
                return Err(ReadError::IO);
            },
        };
        let len: u32 = b0 as u32 + 256u32 * (b1 as u32) + 0x1_0000u32 * (b2 as u32);
        proof {
            crate::common::lemma_le_value_3(
                old(input).data@.subrange(pos0 + 1, pos0 + 4),
            );
        }
        let content_vec = match read_vec(input, len as usize) {
            Ok(v) => v,
            Err(_) => {
                return Err(ReadError::IO);
            },
        };
        let ghost content = content_vec@;
        let mut c = Reader::new(content_vec.as_slice());

        match ty {
            1u8 => {
                let sample_rate = SampleRate(match read_u8(&mut c) {
                    Ok(b) => b,
                    Err(_) => {
                        return Err(ReadError::IO);
                    },
                });
                let codec = match read_u8(&mut c) {
                    Ok(b) => b,
                    Err(_) => {
                        return Err(ReadError::IO);
                    },
                };
                let data = match read_vec(&mut c, (len - 2) as usize) {
                    Ok(v) => v,
                    Err(_) => {
                        return Err(ReadError::IO);
                    },
                };
                proof {
                    assert(data@ =~= content.subrange(2, len as int));
                }
                Ok(Some(Chunk::SoundStart { sample_rate, codec, data }))
            },
            2u8 => {
                proof {
                    assert(content =~= content.subrange(0, len as int));
                }
                Ok(Some(Chunk::SoundContinue { data: content_vec }))
            },
            3u8 => {
                let sample_count = match crate::common::read_u16(&mut c) {
                    Ok(v) => v,
                    Err(_) => {
                        return Err(ReadError::IO);
                    },
                };
                let sample_rate = SampleRate(match read_u8(&mut c) {
                    Ok(b) => b,
                    Err(_) => {
                        return Err(ReadError::IO);
                    },
                });
                Ok(Some(Chunk::Silence { sample_count, sample_rate }))
            },
            6u8 => {
                let v = match crate::common::read_u16(&mut c) {
                    Ok(v) => v,
                    Err(_) => {
                        return Err(ReadError::IO);
                    },
                };
                let count = if v == 0xFFFF {
                    None
                } else {
                    Some(v)
                };
                Ok(Some(Chunk::Repeat { count }))
            },
            7u8 => Ok(Some(Chunk::RepeatEnd)),
            _ => Ok(Some(Chunk::Unknown { ty, len })),
        }
    }
}

/// A decoded audio container: its version word and its chunks.
pub struct Voc {
    pub version: u16,
    pub chunks: Vec<Chunk>,
}

impl Voc {
    /// Reads a whole container image: signature, version and checksum,
    /// then every chunk up to the zero terminator.
    #[verifier::loop_isolation(false)]
    pub fn read(data: &[u8]) -> (r: ReadResult<Voc>)
        ensures
            match r {
                Ok(v) => voc_parse(data@) == (VocParse::Parsed {
                    version: v.version as int,
                    chunks: v.chunks@.map_values(|c: Chunk| c@),
                }),
                Err(e) => match e {
                    ReadError::Signature => voc_parse(data@) == VocParse::BadSig,
                    ReadError::IO => voc_parse(data@) == VocParse::Truncated,
                    ReadError::Decoding(_) => voc_parse(data@) == VocParse::BadCheck,
                },
            },
    {
        let ghost d0 = data@;
        let mut input = Reader::new(data);
        let magic = read_vec(&mut input, 22)?;
        let expected: [u8; 22] = [
            0x43u8, 0x72u8, 0x65u8, 0x61u8, 0x74u8, 0x69u8, 0x76u8, 0x65u8, 0x20u8, 0x56u8,
            0x6Fu8, 0x69u8, 0x63u8, 0x65u8, 0x20u8, 0x46u8, 0x69u8, 0x6Cu8, 0x65u8, 0x1Au8,
            0x1Au8, 0x00u8,
        ];
        let mut k: usize = 0;
        let mut matches_sig = true;
        while k < 22
            invariant
                k <= 22,
                magic@.len() == 22,
                expected@ == voc_magic(),
                matches_sig <==> (forall|j: int| 0 <= j < k ==> magic@[j] == voc_magic()[j]),
            decreases 22 - k,
        {
            if magic[k] != expected[k] {
                matches_sig = false;
            }
            k += 1;
        }
        if !matches_sig {
            proof {
                assert(d0.subrange(0, 22) != voc_magic());
            }
            return Err(ReadError::Signature);
        }
        proof {
            assert(d0.subrange(0, 22) =~= voc_magic());
        }

        let version = crate::common::read_u16(&mut input)?;
        let version_check = crate::common::read_u16(&mut input)?;
        let expected_check: u32 = ((0xFFFFu32 - version as u32) + 0x1234u32) % 0x1_0000u32;
        if expected_check != version_check as u32 {
            return Err(ReadError::Decoding("version check failed"));
        }

        let mut chunks: Vec<Chunk> = Vec::new();
        loop
            invariant
                input.data@ == d0,
                match voc_chunks(d0, input.pos as int) {
                    None => voc_chunks(d0, 26) is None,
                    Some(rest) => voc_chunks(d0, 26) == Some(
                        chunks@.map_values(|c: Chunk| c@) + rest,
                    ),
                },
            decreases d0.len() - input.pos,
        {
            let ghost pos0 = input.pos as int;
            let ghost chunks_before = chunks@;
            match Chunk::read(&mut input) {
                Ok(Some(chunk)) => {
                    chunks.push(chunk);
                    proof {
                        let at = voc_chunk_at(d0, pos0);
                        let m = ((at->0).0)->0;
                        match voc_chunks(d0, input.pos as int) {
                            None => {},
                            Some(rest) => {
                                assert(chunks@.map_values(|c: Chunk| c@) + rest
                                    =~= chunks_before.map_values(|c: Chunk| c@) + (seq![m]
                                    + rest));
                            },
                        }
                        crate::common::lemma_le_value_bound(d0.subrange(pos0 + 1, pos0 + 4));
                    }
                },
                Ok(None) => {
                    proof {
                        assert(chunks@.map_values(|c: Chunk| c@) + Seq::<ChunkModel>::empty()
                            =~= chunks@.map_values(|c: Chunk| c@));
                    }
                    return Ok(Voc { version, chunks });
                },
                Err(_) => {
                    return Err(ReadError::IO);
                },
            }
        }
    }
}

} // verus!
