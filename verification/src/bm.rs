//! The single static image format: a 4-byte signature, sizes and flags,
//! a compression selector, and pixel data stored raw or in either
//! run-length variant, in bottom-to-top column order.

use vstd::prelude::*;

use crate::common::{
    columns_to_rows, columns_to_rows_spec, le_value, read_u32, read_u8, read_vec, read_vec2_u16,
    rle0, rle1, rle_decode, Reader, Vec2, Vec2u16, Vec2u32,
};
use crate::error::{ReadError, ReadResult};

verus! {

/// How the pixel data of an image is stored.
#[derive(Clone, Copy, Debug)]
pub enum Compression {
    Raw,
    Rle1,
    Rle0,
}

/// How reading an image can end.
pub ghost enum BmParse {
    /// The input ended inside the header or the pixel data.
    Truncated,
    /// The magic bytes are not this format's.
    BadMagic,
    /// The compression selector byte is none of 0, 1 or 2.
    BadCompression,
    /// The run-length columns did not decode to exactly `w * h` bytes.
    SizeMismatch,
    /// A decoded image with row-major pixels.
    Image {
        size_x: int,
        size_y: int,
        idem_x: int,
        idem_y: int,
        flags: u8,
        log_size_y: bool,
        compression: int,
        pixels: Seq<u8>,
    },
    /// The multi-tile layout, which decodes to a fixed one-pixel
    /// placeholder instead of failing the read.
    Multi { idem_x: int, idem_y: int, flags: u8, log_size_y: bool, compression: int },
}

/// Whether the input opens with this format's magic bytes.
pub open spec fn bm_magic(data: Seq<u8>) -> bool {
    &&& data.len() >= 4
    &&& data[0] == 0x42u8
    &&& data[1] == 0x4Du8
    &&& data[2] == 0x20u8
    &&& data[3] == 0x1Eu8
}

/// The whole image: header at 0, pixel data at 32, with the run-length
/// column table at `32 + data_size` and column offsets relative to 32.
pub open spec fn bm_parse(data: Seq<u8>) -> BmParse {
    if data.len() < 4 {
        BmParse::Truncated
    } else if !bm_magic(data) {
        BmParse::BadMagic
    } else if data.len() < 15 {
        BmParse::Truncated
    } else {
        let compression = data[14] as int;
        if compression > 2 {
            BmParse::BadCompression
        } else if data.len() < 20 {
            BmParse::Truncated
        } else {
            let w = le_value(data.subrange(4, 6));
            let h = le_value(data.subrange(6, 8));
            let idem_x = le_value(data.subrange(8, 10));
            let idem_y = le_value(data.subrange(10, 12));
            let flags = data[12];
            let log_size_y = data[13] != 0;
            let data_size = le_value(data.subrange(16, 20));
            if w != 1 || h == 1 {
                if compression == 0 {
                    if 32 + w * h > data.len() {
                        BmParse::Truncated
                    } else {
                        BmParse::Image {
                            size_x: w,
                            size_y: h,
                            idem_x,
                            idem_y,
                            flags,
                            log_size_y,
                            compression,
                            pixels: columns_to_rows_spec(w, h, data.subrange(32, 32 + w * h)),
                        }
                    }
                } else {
                    match rle_decode(compression == 1, data, 32 + data_size, 32, w, h) {
                        None => BmParse::Truncated,
                        Some(cols) => {
                            if cols.len() != w * h {
                                BmParse::SizeMismatch
                            } else {
                                BmParse::Image {
                                    size_x: w,
                                    size_y: h,
                                    idem_x,
                                    idem_y,
                                    flags,
                                    log_size_y,
                                    compression,
                                    pixels: columns_to_rows_spec(w, h, cols),
                                }
                            }
                        },
                    }
                }
            } else {
                BmParse::Multi { idem_x, idem_y, flags, log_size_y, compression }
            }
        }
    }
}

/// The compression selector an image carries, as its wire byte.
pub open spec fn compression_byte(c: Compression) -> int {
    match c {
        Compression::Raw => 0,
        Compression::Rle1 => 1,
        Compression::Rle0 => 2,
    }
}

/// One decoded static image.
pub struct Bm {
    pub size: Vec2u16,
    pub idem_size: Vec2u16,
    pub flags: u8,
    pub log_size_y: bool,
    pub compression: Compression,
    pub data: Vec<u8>,
}

impl Bm {
    /// Reads a whole image. The unimplemented multi-tile layout decodes
    /// to a 1-by-1 placeholder holding palette index 1, not an error.
    pub fn read(data: &[u8]) -> (r: ReadResult<Bm>)
        ensures
            match r {
                Ok(b) => match bm_parse(data@) {
                    BmParse::Image {
                        size_x,
                        size_y,
                        idem_x,
                        idem_y,
                        flags,
                        log_size_y,
                        compression,
                        pixels,
                    } => {
                        &&& b.size.x == size_x
                        &&& b.size.y == size_y
                        &&& b.idem_size.x == idem_x
                        &&& b.idem_size.y == idem_y
                        &&& b.flags == flags
                        &&& b.log_size_y == log_size_y
                        &&& compression_byte(b.compression) == compression
                        &&& b.data@ == pixels
                    },
                    BmParse::Multi { idem_x, idem_y, flags, log_size_y, compression } => {
                        &&& b.size.x == 1 && b.size.y == 1
                        &&& b.idem_size.x == idem_x
                        &&& b.idem_size.y == idem_y
                        &&& b.flags == flags
                        &&& b.log_size_y == log_size_y
                        &&& compression_byte(b.compression) == compression
                        &&& b.data@ == seq![1u8]
                    },
                    _ => false,
                },
                Err(e) => match e {
                    ReadError::IO => bm_parse(data@) == BmParse::Truncated,
                    ReadError::Signature => bm_parse(data@) == BmParse::BadMagic,
                    ReadError::Decoding(_) => bm_parse(data@) == BmParse::BadCompression
                        || bm_parse(data@) == BmParse::SizeMismatch,
                },
            },
    {
        let ghost d0 = data@;
        let dlen = data.len();
        let mut input = Reader::new(data);
        let magic = read_vec(&mut input, 4)?;
        if !(magic[0] == 0x42 && magic[1] == 0x4D && magic[2] == 0x20 && magic[3] == 0x1E) {
            return Err(ReadError::Signature);
        }
        let size = read_vec2_u16(&mut input)?;
        let idem_size = read_vec2_u16(&mut input)?;
        let flags = read_u8(&mut input)?;
        let log_size_y_byte = read_u8(&mut input)?;
        let compression_sel = read_u8(&mut input)?;
        let compression = match compression_sel {
            0u8 => Compression::Raw,
            1u8 => Compression::Rle1,
            2u8 => Compression::Rle0,
            _ => {
                return Err(ReadError::Decoding("invalid compression"));
            },
        };
        let _pad = match read_u8(&mut input) {
            Ok(b) => b,
            Err(_) => {
                return Err(ReadError::IO);
            },
        };
        let data_size = match read_u32(&mut input) {
            Ok(v) => v,
            Err(_) => {
                return Err(ReadError::IO);
            },
        };
        let log_size_y = log_size_y_byte != 0;

        if size.x != 1 || size.y == 1 {
            let size_u32 = Vec2 { x: size.x as u32, y: size.y as u32 };
            let ghost w = size.x as int;
            let ghost h = size.y as int;
            proof {
                assert(w * h <= 0xFFFF * 0xFFFF) by (nonlinear_arith)
                    requires
                        0 <= w <= 0xFFFF,
                        0 <= h <= 0xFFFF,
                ;
            }
            let wh: u64 = (size.x as u64) * (size.y as u64);
            let columns = match compression {
                Compression::Raw => {
                    input.seek(32);
                    if dlen < 32 || wh > (dlen - 32) as u64 {
                        return Err(ReadError::IO);
                    }
                    match read_vec(&mut input, wh as usize) {
                        Ok(v) => v,
                        Err(_) => {
                            return Err(ReadError::IO);
                        },
                    }
                },
                Compression::Rle1 => {
                    let table_pos: u64 = 32u64 + data_size as u64;
                    if table_pos >= dlen as u64 {
                        input.seek(dlen);
                    } else {
                        input.seek(table_pos as usize);
                    }
                    match rle1(&mut input, 32, size_u32) {
                        Ok(v) => v,
                        Err(e) => {
                            return Err(
                                match e {
                                    ReadError::IO => ReadError::IO,
                                    _ => ReadError::Decoding("RLE1 decoded size did not match"),
                                },
                            );
                        },
                    }
                },
                Compression::Rle0 => {
                    let table_pos: u64 = 32u64 + data_size as u64;
                    if table_pos >= dlen as u64 {
                        input.seek(dlen);
                    } else {
                        input.seek(table_pos as usize);
                    }
                    match rle0(&mut input, 32, size_u32) {
                        Ok(v) => v,
                        Err(e) => {
                            return Err(
                                match e {
                                    ReadError::IO => ReadError::IO,
                                    _ => ReadError::Decoding("RLE0 decoded size did not match"),
                                },
                            );
                        },
                    }
                },
            };

            let bm_data = columns_to_rows(size_u32, columns);
            Ok(Bm { size, idem_size, flags, log_size_y, compression, data: bm_data })
        } else {
            let mut placeholder: Vec<u8> = Vec::new();
            placeholder.push(1u8);
            proof {
                assert(placeholder@ =~= seq![1u8]);
            }
            Ok(
                Bm {
                    size: Vec2 { x: 1u16, y: 1u16 },
                    idem_size,
                    flags,
                    log_size_y,
                    compression,
                    data: placeholder,
                },
            )
        }
    }
}

} // verus!
