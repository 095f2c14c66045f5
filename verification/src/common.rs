//! The primitive reader every decoder builds on: a cursor over a byte
//! slice with fixed-width little-endian integer reads, plus the shared
//! run-length codecs and the column-major to row-major transposition.

use vstd::prelude::*;

use crate::error::{ReadError, ReadResult};

verus! {

/// Little-endian value of a byte sequence: the first byte is least
/// significant.
pub open spec fn le_value(s: Seq<u8>) -> int
    decreases s.len(),
{
    if s.len() == 0 {
        0
    } else {
        s[0] + 256 * le_value(s.drop_first())
    }
}

/// Two's-complement reading of a 4-byte little-endian sequence.
pub open spec fn le_i32_value(s: Seq<u8>) -> int {
    let v = le_value(s);
    if v < 0x8000_0000 {
        v
    } else {
        v - 0x1_0000_0000
    }
}

pub proof fn lemma_le_value_bound(s: Seq<u8>)
    ensures
        0 <= le_value(s) < pow256(s.len() as nat),
    decreases s.len(),
{
    if s.len() == 0 {
    } else {
        lemma_le_value_bound(s.drop_first());
    }
}

pub proof fn lemma_le_value_1(s: Seq<u8>)
    requires
        s.len() == 1,
    ensures
        le_value(s) == s[0],
{
    assert(s.drop_first() =~= Seq::<u8>::empty());
    assert(le_value(s.drop_first()) == 0);
}

pub proof fn lemma_le_value_2(s: Seq<u8>)
    requires
        s.len() == 2,
    ensures
        le_value(s) == s[0] + 256 * s[1],
{
    lemma_le_value_1(s.drop_first());
}

pub proof fn lemma_le_value_3(s: Seq<u8>)
    requires
        s.len() == 3,
    ensures
        le_value(s) == s[0] + 256 * s[1] + 0x1_0000 * s[2],
{
    lemma_le_value_2(s.drop_first());
}

pub proof fn lemma_le_value_4(s: Seq<u8>)
    requires
        s.len() == 4,
    ensures
        le_value(s) == s[0] + 256 * s[1] + 0x1_0000 * s[2] + 0x100_0000 * s[3],
{
    lemma_le_value_3(s.drop_first());
}

/// 256 to the n-th power, the exclusive upper bound of an n-byte value.
pub open spec fn pow256(n: nat) -> int
    decreases n,
{
    if n == 0 {
        1
    } else {
        256 * pow256((n - 1) as nat)
    }
}

/// A cursor over a byte slice. Reads advance `pos`; a read past the end
/// fails with `ReadError::IO` and leaves the cursor unchanged.
pub struct Reader<'a> {
    pub data: &'a [u8],
    pub pos: usize,
}

impl<'a> Reader<'a> {
    /// How many bytes remain from the cursor to the end of the slice.
    pub open spec fn spec_remaining(&self) -> int {
        self.data@.len() - self.pos
    }

    pub fn new(data: &'a [u8]) -> (r: Reader<'a>)
        ensures
            r.data@ == data@,
            r.pos == 0,
    {
        Reader { data, pos: 0 }
    }

    /// Move the cursor to an absolute position. Positions past the end are
    /// allowed, as a seek past the end of a stream is; reads there fail.
    pub fn seek(&mut self, pos: usize)
        ensures
            final(self).data@ == old(self).data@,
            final(self).pos == pos,
    {
        self.pos = pos;
    }

    pub fn remaining(&self) -> (n: usize)
        ensures
            self.pos <= self.data@.len() ==> n == self.spec_remaining(),
            self.pos > self.data@.len() ==> n == 0,
    {
        if self.pos <= self.data.len() {
            self.data.len() - self.pos
        } else {
            0
        }
    }
}

/// Reads exactly `buffer.len()` bytes into `buffer`, as a fixed-size
/// buffer read does.
pub fn read_buf(input: &mut Reader<'_>, buffer: &mut Vec<u8>) -> (r: ReadResult<()>)
    ensures
        final(input).data@ == old(input).data@,
        match r {
            Ok(()) => {
                &&& old(input).pos + old(buffer).len() <= old(input).data@.len()
                &&& final(buffer)@ == old(input).data@.subrange(
                    old(input).pos as int,
                    old(input).pos + old(buffer).len(),
                )
                &&& final(input).pos == old(input).pos + old(buffer).len()
            },
            Err(e) => {
                &&& e == ReadError::IO
                &&& old(input).pos + old(buffer).len() > old(input).data@.len()
                &&& final(input).pos == old(input).pos
                &&& final(buffer)@ == old(buffer)@
            },
        },
{
    let n = buffer.len();
    if input.pos > input.data.len() || n > input.data.len() - input.pos {
        return Err(ReadError::IO);
    }
    let mut i: usize = 0;
    while i < n
        invariant
            n == buffer.len(),
            input.pos + n <= input.data@.len(),
            input.data@.len() <= usize::MAX,
            i <= n,
            input.data@ == old(input).data@,
            input.pos == old(input).pos,
            forall|j: int|
                0 <= j < i ==> buffer@[j] == input.data@[input.pos + j],
            forall|j: int| i <= j < n ==> buffer@[j] == old(buffer)@[j],
        decreases n - i,
    {
        let b = input.data[input.pos + i];
        buffer.set(i, b);
        i += 1;
    }
    input.pos = input.pos + n;
    proof {
        assert(buffer@ =~= old(input).data@.subrange(
            old(input).pos as int,
            old(input).pos + n,
        ));
    }
    Ok(())
}

/// Reads `len` bytes into a fresh vector.
pub fn read_vec(input: &mut Reader<'_>, len: usize) -> (r: ReadResult<Vec<u8>>)
    ensures
        final(input).data@ == old(input).data@,
        match r {
            Ok(v) => {
                &&& old(input).pos + len <= old(input).data@.len()
                &&& v@ == old(input).data@.subrange(old(input).pos as int, old(input).pos + len)
                &&& final(input).pos == old(input).pos + len
            },
            Err(e) => {
                &&& e == ReadError::IO
                &&& old(input).pos + len > old(input).data@.len()
                &&& final(input).pos == old(input).pos
            },
        },
{
    let mut buffer: Vec<u8> = vec![0u8; len];
    match read_buf(input, &mut buffer) {
        Ok(()) => Ok(buffer),
        Err(e) => Err(e),
    }
}

/// A pair of like values, used for sizes, placements and coordinates.
#[derive(Clone, Copy, Debug, PartialEq, Eq, Structural)]
pub struct Vec2<T> {
    pub x: T,
    pub y: T,
}

pub type Vec2u16 = Vec2<u16>;

pub type Vec2i32 = Vec2<i32>;

pub type Vec2u32 = Vec2<u32>;

pub fn read_u8(input: &mut Reader<'_>) -> (r: ReadResult<u8>)
    ensures
        final(input).data@ == old(input).data@,
        match r {
            Ok(b) => {
                &&& old(input).pos + 1 <= old(input).data@.len()
                &&& b == old(input).data@[old(input).pos as int]
                &&& final(input).pos == old(input).pos + 1
            },
            Err(e) => {
                &&& e == ReadError::IO
                &&& old(input).pos + 1 > old(input).data@.len()
                &&& final(input).pos == old(input).pos
            },
        },
{
    if input.pos < input.data.len() {
        let b = input.data[input.pos];
        input.pos = input.pos + 1;
        Ok(b)
    } else {
        Err(ReadError::IO)
    }
}

pub fn read_u16(input: &mut Reader<'_>) -> (r: ReadResult<u16>)
    ensures
        final(input).data@ == old(input).data@,
        match r {
            Ok(v) => {
                &&& old(input).pos + 2 <= old(input).data@.len()
                &&& v == le_value(old(input).data@.subrange(old(input).pos as int, old(input).pos + 2))
                &&& final(input).pos == old(input).pos + 2
            },
            Err(e) => {
                &&& e == ReadError::IO
                &&& old(input).pos + 2 > old(input).data@.len()
                &&& final(input).pos == old(input).pos
            },
        },
{
    if input.pos <= input.data.len() && input.data.len() - input.pos >= 2 {
        let b0 = input.data[input.pos];
        let b1 = input.data[input.pos + 1];
        input.pos = input.pos + 2;
        proof {
            lemma_le_value_2(old(input).data@.subrange(old(input).pos as int, old(input).pos + 2));
        }
        Ok(b0 as u16 + 256u16 * (b1 as u16))
    } else {
        Err(ReadError::IO)
    }
}

pub fn read_u32(input: &mut Reader<'_>) -> (r: ReadResult<u32>)
    ensures
        final(input).data@ == old(input).data@,
        match r {
            Ok(v) => {
                &&& old(input).pos + 4 <= old(input).data@.len()
                &&& v == le_value(old(input).data@.subrange(old(input).pos as int, old(input).pos + 4))
                &&& final(input).pos == old(input).pos + 4
            },
            Err(e) => {
                &&& e == ReadError::IO
                &&& old(input).pos + 4 > old(input).data@.len()
                &&& final(input).pos == old(input).pos
            },
        },
{
    if input.pos <= input.data.len() && input.data.len() - input.pos >= 4 {
        let b0 = input.data[input.pos];
        let b1 = input.data[input.pos + 1];
        let b2 = input.data[input.pos + 2];
        let b3 = input.data[input.pos + 3];
        input.pos = input.pos + 4;
        proof {
            lemma_le_value_4(old(input).data@.subrange(old(input).pos as int, old(input).pos + 4));
        }
        Ok(b0 as u32 + 256u32 * (b1 as u32) + 0x1_0000u32 * (b2 as u32) + 0x100_0000u32 * (b3 as u32))
    } else {
        Err(ReadError::IO)
    }
}

pub fn read_i32(input: &mut Reader<'_>) -> (r: ReadResult<i32>)
    ensures
        final(input).data@ == old(input).data@,
        match r {
            Ok(v) => {
                &&& old(input).pos + 4 <= old(input).data@.len()
                &&& v == le_i32_value(
                    old(input).data@.subrange(old(input).pos as int, old(input).pos + 4),
                )
                &&& final(input).pos == old(input).pos + 4
            },
            Err(e) => {
                &&& e == ReadError::IO
                &&& old(input).pos + 4 > old(input).data@.len()
                &&& final(input).pos == old(input).pos
            },
        },
{
    let v = read_u32(input)?;
    if v < 0x8000_0000u32 {
        Ok(v as i32)
    } else {
        Ok(-((0xFFFF_FFFFu32 - v) as i32) - 1)
    }
}

pub fn read_vec2_u16(input: &mut Reader<'_>) -> (r: ReadResult<Vec2u16>)
    ensures
        final(input).data@ == old(input).data@,
        match r {
            Ok(v) => {
                &&& old(input).pos + 4 <= old(input).data@.len()
                &&& v.x == le_value(old(input).data@.subrange(old(input).pos as int, old(input).pos + 2))
                &&& v.y == le_value(old(input).data@.subrange(old(input).pos + 2, old(input).pos + 4))
                &&& final(input).pos == old(input).pos + 4
            },
            Err(e) => {
                &&& e == ReadError::IO
                &&& old(input).pos + 4 > old(input).data@.len()
                &&& final(input).pos == old(input).pos
            },
        },
{
    let x = read_u16(input)?;
    match read_u16(input) {
        Ok(y) => Ok(Vec2 { x, y }),
        Err(e) => {
            input.seek(input.pos - 2);
            Err(e)
        },
    }
}

pub fn read_vec2_u32(input: &mut Reader<'_>) -> (r: ReadResult<Vec2u32>)
    ensures
        final(input).data@ == old(input).data@,
        match r {
            Ok(v) => {
                &&& old(input).pos + 8 <= old(input).data@.len()
                &&& v.x == le_value(old(input).data@.subrange(old(input).pos as int, old(input).pos + 4))
                &&& v.y == le_value(old(input).data@.subrange(old(input).pos + 4, old(input).pos + 8))
                &&& final(input).pos == old(input).pos + 8
            },
            Err(e) => {
                &&& e == ReadError::IO
                &&& old(input).pos + 8 > old(input).data@.len()
                &&& final(input).pos == old(input).pos
            },
        },
{
    let x = read_u32(input)?;
    match read_u32(input) {
        Ok(y) => Ok(Vec2 { x, y }),
        Err(e) => {
            input.seek(input.pos - 4);
            Err(e)
        },
    }
}

pub fn read_vec2_i32(input: &mut Reader<'_>) -> (r: ReadResult<Vec2i32>)
    ensures
        final(input).data@ == old(input).data@,
        match r {
            Ok(v) => {
                &&& old(input).pos + 8 <= old(input).data@.len()
                &&& v.x == le_i32_value(
                    old(input).data@.subrange(old(input).pos as int, old(input).pos + 4),
                )
                &&& v.y == le_i32_value(
                    old(input).data@.subrange(old(input).pos + 4, old(input).pos + 8),
                )
                &&& final(input).pos == old(input).pos + 8
            },
            Err(e) => {
                &&& e == ReadError::IO
                &&& old(input).pos + 8 > old(input).data@.len()
                &&& final(input).pos == old(input).pos
            },
        },
{
    let x = read_i32(input)?;
    match read_i32(input) {
        Ok(y) => Ok(Vec2 { x, y }),
        Err(e) => {
            input.seek(input.pos - 4);
            Err(e)
        },
    }
}

/// The bytes of `s` up to, and not including, its first NUL; all of `s`
/// if it holds none. Fixed-width name fields are truncated this way.
pub open spec fn nul_truncate(s: Seq<u8>) -> Seq<u8>
    decreases s.len(),
{
    if s.len() == 0 {
        s
    } else if s[0] == 0 {
        Seq::empty()
    } else {
        seq![s[0]] + nul_truncate(s.drop_first())
    }
}

/// Truncates a name buffer at its first NUL byte.
pub fn truncate_at_nul(mut name: Vec<u8>) -> (r: Vec<u8>)
    ensures
        r@ == nul_truncate(name@),
{
    let ghost orig = name@;
    let mut i: usize = 0;
    let n = name.len();
    while i < n && name[i] != 0
        invariant
            i <= n,
            n == name@.len(),
            name@ == orig,
            forall|j: int| 0 <= j < i ==> name@[j] != 0,
        decreases n - i,
    {
        i += 1;
    }
    name.truncate(i);
    proof {
        lemma_nul_truncate_prefix(orig, i as int);
    }
    name
}

proof fn lemma_nul_truncate_prefix(s: Seq<u8>, i: int)
    requires
        0 <= i <= s.len(),
        forall|j: int| 0 <= j < i ==> s[j] != 0,
        i < s.len() ==> s[i] == 0,
    ensures
        nul_truncate(s) == s.subrange(0, i),
    decreases s.len(),
{
    if s.len() == 0 {
        assert(nul_truncate(s) =~= s.subrange(0, i));
    } else if s[0] == 0 {
        assert(nul_truncate(s) =~= s.subrange(0, i));
    } else {
        lemma_nul_truncate_prefix(s.drop_first(), i - 1);
        assert(nul_truncate(s) =~= s.subrange(0, i));
    }
}

/// One decoded column of the first run-length variant, read from `pos`
/// until `acc` holds at least `height` bytes. A control byte of at most
/// 128 starts a literal run of that many raw bytes; a larger one stands
/// for `control - 128` zero bytes. `None` means the input ran out.
pub open spec fn rle_a_column(data: Seq<u8>, pos: int, acc: Seq<u8>, height: int) -> Option<
    (Seq<u8>, int),
>
    decreases data.len() - pos,
{
    if acc.len() >= height {
        Some((acc, pos))
    } else if pos < 0 || pos >= data.len() {
        None
    } else {
        let c = data[pos] as int;
        if c <= 128 {
            if pos + 1 + c > data.len() {
                None
            } else {
                rle_a_column(data, pos + 1 + c, acc + data.subrange(pos + 1, pos + 1 + c), height)
            }
        } else {
            rle_a_column(data, pos + 1, acc + Seq::new((c - 128) as nat, |_i: int| 0u8), height)
        }
    }
}

/// One decoded column of the second run-length variant. A control byte
/// under 128 starts a literal run; 128 or more stands for `control - 128`
/// copies of the single data byte that follows (a run of zero copies
/// still consumes its data byte).
pub open spec fn rle_b_column(data: Seq<u8>, pos: int, acc: Seq<u8>, height: int) -> Option<
    (Seq<u8>, int),
>
    decreases data.len() - pos,
{
    if acc.len() >= height {
        Some((acc, pos))
    } else if pos < 0 || pos >= data.len() {
        None
    } else {
        let c = data[pos] as int;
        if c < 128 {
            if pos + 1 + c > data.len() {
                None
            } else {
                rle_b_column(data, pos + 1 + c, acc + data.subrange(pos + 1, pos + 1 + c), height)
            }
        } else {
            if pos + 1 >= data.len() {
                None
            } else {
                rle_b_column(
                    data,
                    pos + 2,
                    acc + Seq::new((c - 128) as nat, |_i: int| data[pos + 1]),
                    height,
                )
            }
        }
    }
}

/// Column decode of either variant, selected by `variant_b`.
pub open spec fn rle_column(
    variant_b: bool,
    data: Seq<u8>,
    pos: int,
    acc: Seq<u8>,
    height: int,
) -> Option<(Seq<u8>, int)> {
    if variant_b {
        rle_b_column(data, pos, acc, height)
    } else {
        rle_a_column(data, pos, acc, height)
    }
}

/// The concatenation of the columns decoded at each offset in turn.
pub open spec fn rle_columns(
    variant_b: bool,
    data: Seq<u8>,
    offsets: Seq<int>,
    height: int,
) -> Option<Seq<u8>>
    decreases offsets.len(),
{
    if offsets.len() == 0 {
        Some(Seq::empty())
    } else {
        match rle_column(variant_b, data, offsets[0], Seq::empty(), height) {
            None => None,
            Some(col) => match rle_columns(variant_b, data, offsets.drop_first(), height) {
                None => None,
                Some(rest) => Some(col.0 + rest),
            },
        }
    }
}

/// The `n` column offsets read as little-endian 32-bit values starting
/// at `pos`, each shifted by the caller's base offset.
pub open spec fn column_offsets(data: Seq<u8>, pos: int, n: int, base: int) -> Option<Seq<int>>
    decreases n,
{
    if n <= 0 {
        Some(Seq::empty())
    } else if pos < 0 || pos + 4 > data.len() {
        None
    } else {
        match column_offsets(data, pos + 4, n - 1, base) {
            None => None,
            Some(rest) => Some(seq![base + le_value(data.subrange(pos, pos + 4))] + rest),
        }
    }
}

/// A whole run-length stream: the offset table at `table_pos`, then one
/// column per offset. `None` means the input ran out somewhere.
pub open spec fn rle_decode(
    variant_b: bool,
    data: Seq<u8>,
    table_pos: int,
    base: int,
    width: int,
    height: int,
) -> Option<Seq<u8>> {
    match column_offsets(data, table_pos, width, base) {
        None => None,
        Some(offsets) => rle_columns(variant_b, data, offsets, height),
    }
}

/// Decodes one column of either variant directly out of `data`, appending
/// to `out`, until at least `height` bytes were produced.
fn rle_column_exec(
    data: &[u8],
    start: u64,
    height: u32,
    variant_b: bool,
    out: &mut Vec<u8>,
) -> (r: ReadResult<()>)
    ensures
        match r {
            Ok(()) => ({
                let col = rle_column(variant_b, data@, start as int, Seq::empty(), height as int);
                &&& col is Some
                &&& final(out)@ == old(out)@ + (col->0).0
            }),
            Err(e) => {
                &&& e == ReadError::IO
                &&& rle_column(variant_b, data@, start as int, Seq::empty(), height as int)
                    is None
            },
        },
{
    let base_len = out.len();
    let dlen = data.len();
    let mut pos: u64 = start;
    while ((out.len() - base_len) as u64) < (height as u64)
        invariant
            base_len <= out.len(),
            out@.subrange(0, base_len as int) == old(out)@,
            data@.len() <= usize::MAX,
            dlen == data@.len(),
            rle_column(variant_b, data@, start as int, Seq::empty(), height as int) == rle_column(
                variant_b,
                data@,
                pos as int,
                out@.skip(base_len as int),
                height as int,
            ),
        decreases data@.len() - pos,
    {
        if pos >= dlen as u64 {
            proof {
                assert(rle_column(variant_b, data@, pos as int, out@.skip(base_len as int), height as int) is None);
            }
            return Err(ReadError::IO);
        }
        let c = data[pos as usize];
        let literal = if variant_b {
            c < 128
        } else {
            c <= 128
        };
        if literal {
            let run = c as u64;
            if run > dlen as u64 - (pos + 1) {
                proof {
                    assert(rle_column(variant_b, data@, pos as int, out@.skip(base_len as int), height as int) is None);
                }
                return Err(ReadError::IO);
            }
            let ghost prev = out@;
            let mut j: u64 = 0;
            while j < run
                invariant
                    j <= run,
                    pos + 1 + run <= data@.len(),
                    data@.len() <= usize::MAX,
                    out@ == prev + data@.subrange(pos + 1, pos + 1 + j),
                decreases run - j,
            {
                let b = data[(pos + 1 + j) as usize];
                out.push(b);
                proof {
                    assert(out@ =~= prev + data@.subrange(pos + 1, pos + 1 + j + 1));
                }
                j += 1;
            }
            proof {
                assert(out@.skip(base_len as int) =~= prev.skip(base_len as int) + data@.subrange(
                    pos + 1,
                    pos + 1 + run,
                ));
                assert(out@.subrange(0, base_len as int) =~= prev.subrange(0, base_len as int));
            }
            pos = pos + 1 + run;
        } else if variant_b {
            if pos + 1 >= dlen as u64 {
                proof {
                    assert(rle_column(variant_b, data@, pos as int, out@.skip(base_len as int), height as int) is None);
                }
                return Err(ReadError::IO);
            }
            let b = data[(pos + 1) as usize];
            let run = (c - 128) as u64;
            let ghost prev = out@;
            let mut j: u64 = 0;
            while j < run
                invariant
                    j <= run,
                    out@ == prev + Seq::new(j as nat, |_i: int| b),
                decreases run - j,
            {
                out.push(b);
                proof {
                    assert(out@ =~= prev + Seq::new((j + 1) as nat, |_i: int| b));
                }
                j += 1;
            }
            proof {
                assert(out@.skip(base_len as int) =~= prev.skip(base_len as int) + Seq::new(
                    run as nat,
                    |_i: int| b,
                ));
                assert(out@.subrange(0, base_len as int) =~= prev.subrange(0, base_len as int));
            }
            pos = pos + 2;
        } else {
            let run = (c - 128) as u64;
            let ghost prev = out@;
            let mut j: u64 = 0;
            while j < run
                invariant
                    j <= run,
                    out@ == prev + Seq::new(j as nat, |_i: int| 0u8),
                decreases run - j,
            {
                out.push(0u8);
                proof {
                    assert(out@ =~= prev + Seq::new((j + 1) as nat, |_i: int| 0u8));
                }
                j += 1;
            }
            proof {
                assert(out@.skip(base_len as int) =~= prev.skip(base_len as int) + Seq::new(
                    run as nat,
                    |_i: int| 0u8,
                ));
                assert(out@.subrange(0, base_len as int) =~= prev.subrange(0, base_len as int));
            }
            pos = pos + 1;
        }
    }
    proof {
        assert(out@ =~= out@.subrange(0, base_len as int) + out@.skip(base_len as int));
    }
    Ok(())
}

/// Decodes a whole run-length stream of either variant: the column-offset
/// table at the cursor, then every column, checked against `size`.
#[verifier::loop_isolation(false)]
fn rle_decode_exec(input: &mut Reader<'_>, offset: u32, size: Vec2u32, variant_b: bool) -> (r:
    ReadResult<Vec<u8>>)
    ensures
        final(input).data@ == old(input).data@,
        match r {
            Ok(v) => ({
                let d = rle_decode(
                    variant_b,
                    old(input).data@,
                    old(input).pos as int,
                    offset as int,
                    size.x as int,
                    size.y as int,
                );
                &&& d == Some(v@)
                &&& v@.len() == size.x as int * size.y as int
            }),
            Err(e) => match rle_decode(
                variant_b,
                old(input).data@,
                old(input).pos as int,
                offset as int,
                size.x as int,
                size.y as int,
            ) {
                None => e == ReadError::IO,
                Some(s) => s.len() != size.x as int * size.y as int && e matches ReadError::Decoding(_),
            },
        },
{
    let ghost d0 = input.data@;
    let ghost p0 = input.pos as int;
    let width = size.x;
    let height = size.y;

    let mut offsets: Vec<u64> = Vec::new();
    let mut i: u32 = 0;
    while i < width
        invariant
            i <= width,
            d0 == old(input).data@,
            p0 == old(input).pos,
            input.data@ == d0,
            input.pos == p0 + 4 * i,
            offsets@.len() == i,
            match column_offsets(d0, input.pos as int, width - i, offset as int) {
                None => column_offsets(d0, p0, width as int, offset as int) is None,
                Some(rest) => column_offsets(d0, p0, width as int, offset as int) == Some(
                    offsets@.map_values(|o: u64| o as int) + rest,
                ),
            },
        decreases width - i,
    {
        let ghost pos_before = input.pos as int;
        match read_u32(input) {
            Ok(v) => {
                let ghost offsets_before = offsets@;
                offsets.push(offset as u64 + v as u64);
                proof {
                    let mapped = offsets@.map_values(|o: u64| o as int);
                    let prev = offsets_before.map_values(|o: u64| o as int);
                    match column_offsets(d0, input.pos as int, width - i - 1, offset as int) {
                        None => {},
                        Some(rest) => {
                            assert(mapped + rest =~= prev + (seq![
                                offset + le_value(d0.subrange(pos_before, pos_before + 4)),
                            ] + rest));
                        },
                    }
                }
                i += 1;
            },
            Err(_) => {
                proof {
                    assert(column_offsets(d0, input.pos as int, (width - i) as int, offset as int)
                        is None);
                }
                return Err(ReadError::IO);
            },
        }
    }

    let ghost table = column_offsets(d0, p0, width as int, offset as int)->0;
    proof {
        assert(offsets@.map_values(|o: u64| o as int) + Seq::<int>::empty() =~= offsets@.map_values(
            |o: u64| o as int,
        ));
        assert(table == offsets@.map_values(|o: u64| o as int));
    }

    let mut columns: Vec<u8> = Vec::new();
    proof {
        assert(table.skip(0) =~= table);
        match rle_columns(variant_b, d0, table, height as int) {
            None => {},
            Some(rest) => {
                assert(Seq::<u8>::empty() + rest =~= rest);
            },
        }
    }
    let mut j: usize = 0;
    let n = offsets.len();
    while j < n
        invariant
            j <= n,
            n == offsets@.len(),
            d0 == old(input).data@,
            p0 == old(input).pos,
            input.data@ == d0,
            table == offsets@.map_values(|o: u64| o as int),
            match rle_columns(variant_b, d0, table.skip(j as int), height as int) {
                None => rle_columns(variant_b, d0, table, height as int) is None,
                Some(rest) => rle_columns(variant_b, d0, table, height as int) == Some(
                    columns@ + rest,
                ),
            },
        decreases n - j,
    {
        let ghost cols_before = columns@;
        match rle_column_exec(input.data, offsets[j], height, variant_b, &mut columns) {
            Ok(()) => {
                proof {
                    assert(table.skip(j as int)[0] == offsets@[j as int] as int);
                    assert(table.skip(j as int).drop_first() =~= table.skip(j + 1));
                    let col = rle_column(
                        variant_b,
                        d0,
                        offsets@[j as int] as int,
                        Seq::empty(),
                        height as int,
                    );
                    match rle_columns(variant_b, d0, table.skip(j + 1), height as int) {
                        None => {},
                        Some(rest) => {
                            assert(columns@ + rest =~= cols_before + ((col->0).0 + rest));
                        },
                    }
                }
                j += 1;
            },
            Err(_) => {
                proof {
                    assert(table.skip(j as int)[0] == offsets@[j as int] as int);
                    assert(rle_columns(variant_b, d0, table.skip(j as int), height as int)
                        is None);
                }
                return Err(ReadError::IO);
            },
        }
    }
    proof {
        assert(table.skip(n as int) =~= Seq::<int>::empty());
        assert(columns@ + Seq::<u8>::empty() =~= columns@);
    }

    proof {
        assert((width as u64) as int * (height as u64) as int <= u64::MAX) by (nonlinear_arith)
            requires
                width <= u32::MAX,
                height <= u32::MAX,
        ;
    }
    if columns.len() as u64 != (width as u64) * (height as u64) {
        if variant_b {
            return Err(ReadError::Decoding("RLE1 decoded size did not match"));
        } else {
            return Err(ReadError::Decoding("RLE0 decoded size did not match"));
        }
    }
    Ok(columns)
}

/// Decodes the first run-length variant (literal runs and zero runs),
/// reading the column-offset table at the cursor; column offsets are
/// relative to `offset`. The decoded columns must hold exactly
/// `size.x * size.y` bytes.
pub fn rle0(input: &mut Reader<'_>, offset: u32, size: Vec2u32) -> (r: ReadResult<Vec<u8>>)
    ensures
        final(input).data@ == old(input).data@,
        match r {
            Ok(v) => ({
                let d = rle_decode(
                    false,
                    old(input).data@,
                    old(input).pos as int,
                    offset as int,
                    size.x as int,
                    size.y as int,
                );
                &&& d == Some(v@)
                &&& v@.len() == size.x as int * size.y as int
            }),
            Err(e) => match rle_decode(
                false,
                old(input).data@,
                old(input).pos as int,
                offset as int,
                size.x as int,
                size.y as int,
            ) {
                None => e == ReadError::IO,
                Some(s) => s.len() != size.x as int * size.y as int && e matches ReadError::Decoding(_),
            },
        },
{
    rle_decode_exec(input, offset, size, false)
}

/// Decodes the second run-length variant (literal runs and repeated-byte
/// runs), in the same frame as `rle0`.
pub fn rle1(input: &mut Reader<'_>, offset: u32, size: Vec2u32) -> (r: ReadResult<Vec<u8>>)
    ensures
        final(input).data@ == old(input).data@,
        match r {
            Ok(v) => ({
                let d = rle_decode(
                    true,
                    old(input).data@,
                    old(input).pos as int,
                    offset as int,
                    size.x as int,
                    size.y as int,
                );
                &&& d == Some(v@)
                &&& v@.len() == size.x as int * size.y as int
            }),
            Err(e) => match rle_decode(
                true,
                old(input).data@,
                old(input).pos as int,
                offset as int,
                size.x as int,
                size.y as int,
            ) {
                None => e == ReadError::IO,
                Some(s) => s.len() != size.x as int * size.y as int && e matches ReadError::Decoding(_),
            },
        },
{
    rle_decode_exec(input, offset, size, true)
}

/// The row-major image built from bottom-to-top column-major pixel data:
/// output row `y`, column `x` is input column `x`, entry `h - 1 - y`.
pub open spec fn columns_to_rows_spec(w: int, h: int, cols: Seq<u8>) -> Seq<u8> {
    Seq::new((w * h) as nat, |i: int| cols[(i % w) * h + h - 1 - i / w])
}

/// The inverse ordering: bottom-to-top column-major data built back from
/// a row-major image.
pub open spec fn rows_to_columns_spec(w: int, h: int, rows: Seq<u8>) -> Seq<u8> {
    Seq::new((w * h) as nat, |j: int| rows[(h - 1 - j % h) * w + j / h])
}

/// Re-ordering the transposed image back into bottom-to-top column-major
/// order reproduces the input exactly: the transposition loses nothing.
pub proof fn lemma_transpose_round_trip(w: int, h: int, cols: Seq<u8>)
    requires
        0 <= w,
        0 <= h,
        cols.len() == w * h,
    ensures
        rows_to_columns_spec(w, h, columns_to_rows_spec(w, h, cols)) == cols,
{
    let rows = columns_to_rows_spec(w, h, cols);
    let back = rows_to_columns_spec(w, h, rows);
    assert forall|j: int| 0 <= j < w * h implies back[j] == cols[j] by {
        assert(h != 0) by (nonlinear_arith)
            requires
                0 <= j < w * h,
                0 <= h,
        ;
        vstd::arithmetic::div_mod::lemma_fundamental_div_mod(j, h);
        let x = j / h;
        let r = j % h;
        assert(0 <= x < w) by (nonlinear_arith)
            requires
                0 <= j < w * h,
                0 < h,
                x == j / h,
                j == h * x + r,
                0 <= r < h,
        ;
        let i = (h - 1 - r) * w + x;
        assert(0 <= i < w * h) by (nonlinear_arith)
            requires
                0 <= r < h,
                0 <= x < w,
                i == (h - 1 - r) * w + x,
        ;
        vstd::arithmetic::div_mod::lemma_fundamental_div_mod_converse(i, w, h - 1 - r, x);
        assert(back[j] == rows[i]);
        assert(rows[i] == cols[(i % w) * h + h - 1 - i / w]);
        assert((i % w) * h + h - 1 - i / w == x * h + r);
        assert(x * h + r == j) by (nonlinear_arith)
            requires
                j == h * x + r,
        ;
    };
    assert(back =~= cols);
}

/// Transposes bottom-to-top column-major pixel data into row-major order,
/// top row first.
#[verifier::loop_isolation(false)]
pub fn columns_to_rows(size: Vec2u32, columns: Vec<u8>) -> (r: Vec<u8>)
    requires
        size.x as int * size.y as int == columns@.len(),
    ensures
        r@ == columns_to_rows_spec(size.x as int, size.y as int, columns@),
{
    let w = size.x as usize;
    let h = size.y as usize;
    let clen = columns.len();
    proof {
        assert(w * h == columns@.len()) by (nonlinear_arith)
            requires
                size.x as int * size.y as int == columns@.len(),
                w == size.x,
                h == size.y,
        ;
    }
    let mut data: Vec<u8> = Vec::new();
    let mut y: usize = 0;
    while y < h
        invariant
            y <= h,
            w * h == columns@.len(),
            columns@.len() <= usize::MAX,
            data@.len() == y * w,
            forall|i: int|
                0 <= i < y * w ==> data@[i] == columns@[(i % w as int) * h + h - 1 - i / w as int],
        decreases h - y,
    {
        let mut x: usize = 0;
        while x < w
            invariant
                y < h,
                x <= w,
                w * h == columns@.len(),
                columns@.len() <= usize::MAX,
                data@.len() == y * w + x,
                forall|i: int|
                    0 <= i < y * w + x ==> data@[i] == columns@[(i % w as int) * h + h - 1
                        - i / w as int],
            decreases w - x,
        {
            proof {
                assert(x * h + h - 1 - y < w * h && y * w + x < w * h) by (nonlinear_arith)
                    requires
                        0 <= x < w,
                        0 <= y < h,
                ;
            }
            let idx = x * h + (h - 1 - y);
            data.push(columns[idx]);
            proof {
                vstd::arithmetic::div_mod::lemma_fundamental_div_mod_converse(
                    y * w + x,
                    w as int,
                    y as int,
                    x as int,
                );
            }
            x += 1;
        }
        proof {
            assert(y * w + w == (y + 1) * w) by (nonlinear_arith);
        }
        y += 1;
    }
    proof {
        assert(h * w == w * h) by (nonlinear_arith);
        assert(data@ =~= columns_to_rows_spec(size.x as int, size.y as int, columns@));
    }
    data
}

/// What a catalog entry means: a name and the byte range it occupies.
pub ghost struct CatalogEntryModel {
    pub name: Seq<u8>,
    pub offset: int,
    pub length: int,
}

/// One named asset inside an archive: its name (ASCII bytes), and the
/// offset and length of its byte range.
pub struct CatalogEntry {
    pub name: Vec<u8>,
    pub offset: u32,
    pub length: u32,
}

impl View for CatalogEntry {
    type V = CatalogEntryModel;

    open spec fn view(&self) -> CatalogEntryModel {
        CatalogEntryModel { name: self.name@, offset: self.offset as int, length: self.length as int }
    }
}

/// The ordered list of entries an archive declares.
pub struct Catalog {
    pub entries: Vec<CatalogEntry>,
}

impl View for Catalog {
    type V = Seq<CatalogEntryModel>;

    open spec fn view(&self) -> Seq<CatalogEntryModel> {
        self.entries@.map_values(|e: CatalogEntry| e@)
    }
}

/// An ASCII byte folded to lower case; other bytes are unchanged.
pub open spec fn ascii_lower(b: u8) -> u8 {
    if 65 <= b <= 90 {
        (b + 32) as u8
    } else {
        b
    }
}

/// Whether two names match, byte for byte or up to ASCII case.
pub open spec fn name_matches(a: Seq<u8>, b: Seq<u8>, case_insensitive: bool) -> bool {
    if case_insensitive {
        a.map_values(|x: u8| ascii_lower(x)) == b.map_values(|x: u8| ascii_lower(x))
    } else {
        a == b
    }
}

/// Compares two names, byte for byte or up to ASCII case.
#[verifier::loop_isolation(false)]
pub fn names_match(a: &Vec<u8>, b: &[u8], case_insensitive: bool) -> (r: bool)
    ensures
        r == name_matches(a@, b@, case_insensitive),
{
    let ghost la = a@.map_values(|x: u8| ascii_lower(x));
    let ghost lb = b@.map_values(|x: u8| ascii_lower(x));
    if a.len() != b.len() {
        proof {
            if case_insensitive {
                assert(la.len() != lb.len());
            }
        }
        return false;
    }
    let n = a.len();
    let mut i: usize = 0;
    while i < n
        invariant
            i <= n,
            n == a@.len() == b@.len(),
            case_insensitive ==> forall|j: int| 0 <= j < i ==> la[j] == lb[j],
            !case_insensitive ==> forall|j: int| 0 <= j < i ==> a@[j] == b@[j],
        decreases n - i,
    {
        let mut x = a[i];
        let mut y = b[i];
        if case_insensitive {
            if 65 <= x && x <= 90 {
                x = x + 32;
            }
            if 65 <= y && y <= 90 {
                y = y + 32;
            }
            proof {
                assert(la[i as int] == ascii_lower(a@[i as int]));
                assert(lb[i as int] == ascii_lower(b@[i as int]));
            }
        }
        if x != y {
            proof {
                if case_insensitive {
                    assert(la[i as int] != lb[i as int]);
                } else {
                    assert(a@[i as int] != b@[i as int]);
                }
            }
            return false;
        }
        i += 1;
    }
    proof {
        if case_insensitive {
            assert(la =~= lb);
        } else {
            assert(a@ =~= b@);
        }
    }
    true
}

impl Catalog {
    /// Finds the first entry whose name matches, byte for byte or up to
    /// ASCII case as texture lookups need.
    pub fn find(&self, name: &[u8], case_insensitive: bool) -> (r: Option<usize>)
        ensures
            match r {
                Some(i) => {
                    &&& i < self@.len()
                    &&& name_matches(self@[i as int].name, name@, case_insensitive)
                    &&& forall|j: int|
                        0 <= j < i ==> !name_matches(
                            (#[trigger] self@[j]).name,
                            name@,
                            case_insensitive,
                        )
                },
                None => forall|j: int|
                    0 <= j < self@.len() ==> !name_matches(
                        (#[trigger] self@[j]).name,
                        name@,
                        case_insensitive,
                    ),
            },
    {
        let n = self.entries.len();
        let mut i: usize = 0;
        while i < n
            invariant
                i <= n,
                n == self.entries@.len(),
                forall|j: int|
                    0 <= j < i ==> !name_matches(
                        (#[trigger] self@[j]).name,
                        name@,
                        case_insensitive,
                    ),
            decreases n - i,
        {
            if names_match(&self.entries[i].name, name, case_insensitive) {
                proof {
                    assert(self@[i as int].name == self.entries@[i as int].name@);
                }
                return Some(i);
            }
            proof {
                assert(self@[i as int].name == self.entries@[i as int].name@);
            }
            i += 1;
        }
        None
    }
}

} // verus!
