//! The single-sprite format: placement metadata (a frame) pointing at one
//! pixel cell, stored raw or with the first run-length variant, in
//! bottom-to-top column order.

use vstd::prelude::*;

use crate::common::{
    columns_to_rows, columns_to_rows_spec, le_i32_value, le_value, read_u32, read_vec,
    read_vec2_i32, read_vec2_u32, rle0, rle_decode, Reader, Vec2, Vec2u32,
};
use crate::error::{ReadError, ReadResult};

verus! {

/// Placement metadata for one sprite cell.
#[derive(Clone, Copy, Debug, PartialEq, Eq, Structural)]
pub struct Frame {
    pub offset: Vec2<i32>,
    pub flip: bool,
}

/// The frame record at `pos`: a signed placement offset and a flip word.
pub open spec fn frame_at(data: Seq<u8>, pos: int) -> Option<Frame> {
    if pos < 0 || pos + 12 > data.len() {
        None
    } else {
        Some(
            Frame {
                offset: Vec2 {
                    x: le_i32_value(data.subrange(pos, pos + 4)) as i32,
                    y: le_i32_value(data.subrange(pos + 4, pos + 8)) as i32,
                },
                flip: le_value(data.subrange(pos + 8, pos + 12)) != 0,
            },
        )
    }
}

impl Frame {
    /// Reads the frame record at the cursor.
    pub fn read(input: &mut Reader<'_>) -> (r: ReadResult<Frame>)
        ensures
            final(input).data@ == old(input).data@,
            match r {
                Ok(f) => {
                    &&& frame_at(old(input).data@, old(input).pos as int) == Some(f)
                    &&& final(input).pos == old(input).pos + 12
                },
                Err(e) => {
                    &&& e == ReadError::IO
                    &&& frame_at(old(input).data@, old(input).pos as int) is None
                },
            },
    {
        let offset = read_vec2_i32(input)?;
        match read_u32(input) {
            Ok(flip_word) => Ok(Frame { offset, flip: flip_word != 0 }),
            Err(_) => Err(ReadError::IO),
        }
    }
}

/// What a pixel cell means: its size and its row-major pixels.
pub ghost struct CellModel {
    pub size_x: int,
    pub size_y: int,
    pub pixels: Seq<u8>,
}

/// How reading a cell record can end.
pub ghost enum CellParse {
    /// The input ended inside the header or the pixel data.
    Truncated,
    /// The data-offset field, which the format fixes at zero, is not zero.
    BadDataOffset,
    /// The run-length columns did not decode to exactly `w * h` bytes.
    SizeMismatch,
    /// The decoded cell.
    Cell(CellModel),
}

/// The cell record at `offset`: a 24-byte header, then raw or run-length
/// pixel columns, transposed to row-major order.
pub open spec fn cell_parse(data: Seq<u8>, offset: int) -> CellParse {
    if offset < 0 || offset + 24 > data.len() {
        CellParse::Truncated
    } else {
        let w = le_value(data.subrange(offset, offset + 4));
        let h = le_value(data.subrange(offset + 4, offset + 8));
        let compressed = le_value(data.subrange(offset + 8, offset + 12)) != 0;
        let data_offset = le_i32_value(data.subrange(offset + 16, offset + 20));
        if data_offset != 0 {
            CellParse::BadDataOffset
        } else if !compressed {
            if offset + 24 + w * h > data.len() {
                CellParse::Truncated
            } else {
                CellParse::Cell(
                    CellModel {
                        size_x: w,
                        size_y: h,
                        pixels: columns_to_rows_spec(
                            w,
                            h,
                            data.subrange(offset + 24, offset + 24 + w * h),
                        ),
                    },
                )
            }
        } else {
            match rle_decode(false, data, offset + 24, offset, w, h) {
                None => CellParse::Truncated,
                Some(cols) => {
                    if cols.len() != w * h {
                        CellParse::SizeMismatch
                    } else {
                        CellParse::Cell(
                            CellModel { size_x: w, size_y: h, pixels: columns_to_rows_spec(w, h, cols) },
                        )
                    }
                },
            }
        }
    }
}

/// One pixel cell: its size and its row-major palette-index data.
pub struct Cell {
    pub size: Vec2u32,
    pub data: Vec<u8>,
}

impl View for Cell {
    type V = CellModel;

    open spec fn view(&self) -> CellModel {
        CellModel { size_x: self.size.x as int, size_y: self.size.y as int, pixels: self.data@ }
    }
}

impl Cell {
    /// Reads the cell record at `offset` in the underlying input.
    pub fn read(input: &mut Reader<'_>, offset: u32) -> (r: ReadResult<Cell>)
        ensures
            final(input).data@ == old(input).data@,
            match r {
                Ok(c) => cell_parse(old(input).data@, offset as int) == CellParse::Cell(c@),
                Err(e) => match e {
                    ReadError::IO => cell_parse(old(input).data@, offset as int)
                        == CellParse::Truncated,
                    ReadError::Decoding(_) => cell_parse(old(input).data@, offset as int)
                        == CellParse::BadDataOffset || cell_parse(old(input).data@, offset as int)
                        == CellParse::SizeMismatch,
                    ReadError::Signature => false,
                },
            },
    {
        input.seek(offset as usize);
        let size = read_vec2_u32(input)?;
        let compressed_word = read_u32(input)?;
        let _data_size = read_u32(input)?;
        let data_offset = match crate::common::read_i32(input) {
            Ok(v) => v,
            Err(_) => {
                return Err(ReadError::IO);
            },
        };
        let _pad = match read_u32(input) {
            Ok(v) => v,
            Err(_) => {
                return Err(ReadError::IO);
            },
        };

        if data_offset != 0 {
            return Err(ReadError::Decoding("cell data offset must be zero"));
        }

        proof {
            assert((size.x as u64) as int * (size.y as u64) as int <= u64::MAX)
                by (nonlinear_arith)
                requires
                    size.x <= u32::MAX,
                    size.y <= u32::MAX,
            ;
        }
        let wh: u64 = (size.x as u64) * (size.y as u64);
        let columns = if compressed_word == 0 {
            if input.pos > input.data.len() || wh > (input.data.len() - input.pos) as u64 {
                return Err(ReadError::IO);
            }
            match read_vec(input, wh as usize) {
                Ok(v) => v,
                Err(_) => {
                    return Err(ReadError::IO);
                },
            }
        } else {
            match rle0(input, offset, size) {
                Ok(v) => v,
                Err(e) => {
                    return Err(
                        match e {
                            ReadError::IO => ReadError::IO,
                            _ => ReadError::Decoding("RLE0 decoded size did not match"),
                        },
                    );
                },
            }
        };

        let data = columns_to_rows(size, columns);
        Ok(Cell { size, data })
    }
}

/// How reading a whole single-sprite image can end.
pub ghost enum FmeParse {
    Truncated,
    BadDataOffset,
    SizeMismatch,
    /// The frame, and the cell it points at.
    Parsed { frame: Frame, cell: CellModel },
}

/// A whole single-sprite image: the frame record at the start, a cell
/// pointer, and the cell it points at.
pub open spec fn fme_parse(data: Seq<u8>) -> FmeParse {
    match frame_at(data, 0) {
        None => FmeParse::Truncated,
        Some(frame) => {
            if data.len() < 16 {
                FmeParse::Truncated
            } else {
                let cell_offset = le_value(data.subrange(12, 16));
                match cell_parse(data, cell_offset) {
                    CellParse::Truncated => FmeParse::Truncated,
                    CellParse::BadDataOffset => FmeParse::BadDataOffset,
                    CellParse::SizeMismatch => FmeParse::SizeMismatch,
                    CellParse::Cell(cell) => FmeParse::Parsed { frame, cell },
                }
            }
        },
    }
}

/// One decoded single-sprite image.
pub struct Fme {
    pub frame: Frame,
    pub cell: Cell,
}

impl Fme {
    /// Reads a whole single-sprite image.
    pub fn read(data: &[u8]) -> (r: ReadResult<Fme>)
        ensures
            match r {
                Ok(f) => fme_parse(data@) == (FmeParse::Parsed { frame: f.frame, cell: f.cell@ }),
                Err(e) => match e {
                    ReadError::IO => fme_parse(data@) == FmeParse::Truncated,
                    ReadError::Decoding(_) => fme_parse(data@) == FmeParse::BadDataOffset
                        || fme_parse(data@) == FmeParse::SizeMismatch,
                    ReadError::Signature => false,
                },
            },
    {
        let mut input = Reader::new(data);
        let frame = Frame::read(&mut input)?;
        let cell_offset = read_u32(&mut input)?;
        let cell = Cell::read(&mut input, cell_offset)?;
        Ok(Fme { frame, cell })
    }
}

} // verus!
