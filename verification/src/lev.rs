//! The level text format: a line-oriented grammar, tolerant of
//! `#`-prefixed trailing comments, describing a palette, texture names,
//! and sectors with vertices and walls.
//!
//! Failures come in two strengths: a *soft* failure (an expected tag is absent) lets an enclosing
//! repetition stop gracefully, while a *hard* failure (a tag matched but
//! its value is malformed) aborts the whole file.

use vstd::prelude::*;

use crate::common::Vec2;
use crate::error::{ReadError, ReadResult};

verus! {

/// The outcome of one spec-level parser: a value and the position after
/// it, a soft failure, or a hard failure.
pub ghost enum Parsed<T> {
    Done(T, int),
    Soft,
    Hard,
}

/// The executable counterpart of a failed parse.
enum PErr {
    Soft,
    Hard,
}

/// A decimal number written as `-?digits.digits`, kept exactly: sign,
/// whole part, and fraction digits with their count. The value is
/// `whole + frac / 10^frac_digits`, negated when `neg`.
#[derive(Clone, Copy, Debug, PartialEq, Eq, Structural)]
pub struct Decimal {
    pub neg: bool,
    pub whole: u32,
    pub frac: u32,
    pub frac_digits: u8,
}

/// Spaces and tabs, the token separators of the grammar.
pub open spec fn is_space(b: u8) -> bool {
    b == 32 || b == 9
}

/// ASCII decimal digits.
pub open spec fn is_digit(b: u8) -> bool {
    48 <= b <= 57
}

/// The first position at or after `pos` that holds no space or tab.
pub open spec fn skip_spaces(data: Seq<u8>, pos: int) -> int
    decreases data.len() - pos,
{
    if pos < 0 || pos >= data.len() || !is_space(data[pos]) {
        pos
    } else {
        skip_spaces(data, pos + 1)
    }
}

proof fn lemma_skip_spaces_idempotent(data: Seq<u8>, pos: int)
    requires
        0 <= pos <= data.len(),
    ensures
        skip_spaces(data, skip_spaces(data, pos)) == skip_spaces(data, pos),
    decreases data.len() - pos,
{
    if pos < data.len() && is_space(data[pos]) {
        lemma_skip_spaces_idempotent(data, pos + 1);
    }
}

proof fn lemma_skip_spaces_bounds(data: Seq<u8>, pos: int)
    requires
        0 <= pos <= data.len(),
    ensures
        pos <= skip_spaces(data, pos) <= data.len(),
    decreases data.len() - pos,
{
    if pos < data.len() && is_space(data[pos]) {
        lemma_skip_spaces_bounds(data, pos + 1);
    }
}

/// The position after a line ending at `pos`: a bare line feed or a
/// carriage return and line feed.
pub open spec fn line_ending_at(data: Seq<u8>, pos: int) -> Option<int> {
    if 0 <= pos < data.len() && data[pos] == 10 {
        Some(pos + 1)
    } else if 0 <= pos && pos + 2 <= data.len() && data[pos] == 13 && data[pos + 1] == 10 {
        Some(pos + 2)
    } else {
        None
    }
}

/// The first position at or after `pos` that ends a line (a carriage
/// return or line feed), or the end of the input.
pub open spec fn line_content_end(data: Seq<u8>, pos: int) -> int
    decreases data.len() - pos,
{
    if pos < 0 || pos >= data.len() || data[pos] == 13 || data[pos] == 10 {
        pos
    } else {
        line_content_end(data, pos + 1)
    }
}

proof fn lemma_line_content_end_bounds(data: Seq<u8>, pos: int)
    requires
        0 <= pos <= data.len(),
    ensures
        pos <= line_content_end(data, pos) <= data.len(),
    decreases data.len() - pos,
{
    if pos < data.len() && data[pos] != 13 && data[pos] != 10 {
        lemma_line_content_end_bounds(data, pos + 1);
    }
}

/// One line ending, optionally preceded by spaces and a `#` comment that
/// runs to the line's end. Without a comment the ending must stand right
/// at `pos`: trailing spaces belong to the token parsers.
pub open spec fn eol_comment(data: Seq<u8>, pos: int) -> Option<int> {
    let p1 = skip_spaces(data, pos);
    if 0 <= p1 < data.len() && data[p1] == 35 {
        line_ending_at(data, line_content_end(data, p1 + 1))
    } else {
        line_ending_at(data, pos)
    }
}

proof fn lemma_eol_comment_bounds(data: Seq<u8>, pos: int)
    requires
        0 <= pos <= data.len(),
    ensures
        match eol_comment(data, pos) {
            Some(p) => pos < p <= data.len(),
            None => true,
        },
{
    lemma_skip_spaces_bounds(data, pos);
    let p1 = skip_spaces(data, pos);
    if 0 <= p1 < data.len() && data[p1] == 35 {
        lemma_line_content_end_bounds(data, p1 + 1);
    }
}

/// As many further comment lines and line endings as follow.
pub open spec fn eol_many(data: Seq<u8>, pos: int) -> int
    decreases data.len() - pos,
    via eol_many_decreases
{
    if pos < 0 || pos > data.len() {
        pos
    } else {
        match eol_comment(data, pos) {
            Some(p) => eol_many(data, p),
            None => pos,
        }
    }
}

#[via_fn]
proof fn eol_many_decreases(data: Seq<u8>, pos: int) {
    if 0 <= pos <= data.len() {
        lemma_eol_comment_bounds(data, pos);
    }
}

proof fn lemma_eol_many_bounds(data: Seq<u8>, pos: int)
    requires
        0 <= pos <= data.len(),
    ensures
        pos <= eol_many(data, pos) <= data.len(),
    decreases data.len() - pos,
{
    lemma_eol_comment_bounds(data, pos);
    match eol_comment(data, pos) {
        Some(p) => {
            lemma_eol_many_bounds(data, p);
        },
        None => {},
    }
}

/// The end of a line: at least one line ending (each optionally carrying
/// a comment), then any further such lines, then the next line's leading
/// spaces.
pub open spec fn eol(data: Seq<u8>, pos: int) -> Option<int> {
    match eol_comment(data, pos) {
        None => None,
        Some(p) => Some(skip_spaces(data, eol_many(data, p))),
    }
}

proof fn lemma_eol_bounds(data: Seq<u8>, pos: int)
    requires
        0 <= pos <= data.len(),
    ensures
        match eol(data, pos) {
            Some(p) => pos < p <= data.len(),
            None => true,
        },
{
    lemma_eol_comment_bounds(data, pos);
    match eol_comment(data, pos) {
        Some(p) => {
            lemma_eol_many_bounds(data, p);
            lemma_skip_spaces_bounds(data, eol_many(data, p));
        },
        None => {},
    }
}

/// Whether the bytes of `t` stand at `pos`.
pub open spec fn tag_at(data: Seq<u8>, pos: int, t: Seq<u8>) -> bool {
    &&& 0 <= pos
    &&& pos + t.len() <= data.len()
    &&& data.subrange(pos, pos + t.len()) == t
}

/// The first position at or after `pos` that holds no decimal digit.
pub open spec fn digits_end(data: Seq<u8>, pos: int) -> int
    decreases data.len() - pos,
{
    if pos < 0 || pos >= data.len() || !is_digit(data[pos]) {
        pos
    } else {
        digits_end(data, pos + 1)
    }
}

proof fn lemma_digits_end_bounds(data: Seq<u8>, pos: int)
    requires
        0 <= pos <= data.len(),
    ensures
        pos <= digits_end(data, pos) <= data.len(),
        forall|j: int| pos <= j < digits_end(data, pos) ==> is_digit(data[j]),
    decreases data.len() - pos,
{
    if pos < data.len() && is_digit(data[pos]) {
        lemma_digits_end_bounds(data, pos + 1);
    }
}

/// The decimal value of the digits in `[pos, end)`, most significant
/// first.
pub open spec fn digits_value(data: Seq<u8>, pos: int, end: int) -> int
    decreases end - pos,
{
    if pos >= end {
        0
    } else {
        digits_value(data, pos, end - 1) * 10 + (data[end - 1] - 48)
    }
}

proof fn lemma_digits_value_grows(data: Seq<u8>, pos: int, mid: int, end: int)
    requires
        0 <= pos <= mid <= end <= data.len(),
        forall|j: int| pos <= j < end ==> is_digit(data[j]),
    ensures
        0 <= digits_value(data, pos, mid) <= digits_value(data, pos, end),
    decreases end - mid,
{
    if mid == end {
        lemma_digits_value_nonneg(data, pos, end);
    } else {
        lemma_digits_value_grows(data, pos, mid, end - 1);
        lemma_digits_value_nonneg(data, pos, end - 1);
    }
}

proof fn lemma_digits_value_nonneg(data: Seq<u8>, pos: int, end: int)
    requires
        0 <= pos <= end <= data.len(),
        forall|j: int| pos <= j < end ==> is_digit(data[j]),
    ensures
        digits_value(data, pos, end) >= 0,
    decreases end - pos,
{
    if pos < end {
        lemma_digits_value_nonneg(data, pos, end - 1);
    }
}

/// An unsigned decimal number no greater than `max`, with its trailing
/// spaces: absent digits or a value past `max` are a soft failure.
pub open spec fn uint_at(data: Seq<u8>, pos: int, max: int) -> Parsed<int> {
    let e = digits_end(data, pos);
    if e == pos {
        Parsed::Soft
    } else {
        let v = digits_value(data, pos, e);
        if v > max {
            Parsed::Soft
        } else {
            Parsed::Done(v, skip_spaces(data, e))
        }
    }
}

/// A signed decimal number in the 32-bit signed range, with its trailing
/// spaces.
pub open spec fn sint_at(data: Seq<u8>, pos: int) -> Parsed<int> {
    let neg = 0 <= pos < data.len() && data[pos] == 45;
    let p1 = if neg {
        pos + 1
    } else {
        pos
    };
    let e = digits_end(data, p1);
    if e == p1 {
        Parsed::Soft
    } else {
        let v = digits_value(data, p1, e);
        let signed = if neg {
            -v
        } else {
            v
        };
        if signed < -0x8000_0000 || signed > 0x7FFF_FFFF {
            Parsed::Soft
        } else {
            Parsed::Done(signed, skip_spaces(data, e))
        }
    }
}

/// A decimal number of the form `-?digits.digits`, with its trailing
/// spaces. Each digit group must fit 32 bits and the fraction must have
/// at most 255 digits, so that the value is kept exactly.
pub open spec fn decimal_at(data: Seq<u8>, pos: int) -> Parsed<Decimal> {
    let neg = 0 <= pos < data.len() && data[pos] == 45;
    let p1 = if neg {
        pos + 1
    } else {
        pos
    };
    let e1 = digits_end(data, p1);
    if e1 == p1 {
        Parsed::Soft
    } else if !(e1 < data.len() && data[e1] == 46) {
        Parsed::Soft
    } else {
        let f1 = e1 + 1;
        let e2 = digits_end(data, f1);
        if e2 == f1 {
            Parsed::Soft
        } else {
            let whole = digits_value(data, p1, e1);
            let frac = digits_value(data, f1, e2);
            if whole > u32::MAX || frac > u32::MAX || e2 - f1 > 255 {
                Parsed::Soft
            } else {
                Parsed::Done(
                    Decimal {
                        neg,
                        whole: whole as u32,
                        frac: frac as u32,
                        frac_digits: (e2 - f1) as u8,
                    },
                    skip_spaces(data, e2),
                )
            }
        }
    }
}

/// The first position at or after `pos` that ends a word: a space, a
/// comment mark, or a line ending. Tabs do not end a word.
pub open spec fn word_end(data: Seq<u8>, pos: int) -> int
    decreases data.len() - pos,
{
    if pos < 0 || pos >= data.len() || data[pos] == 32 || data[pos] == 35 || data[pos] == 13
        || data[pos] == 10 {
        pos
    } else {
        word_end(data, pos + 1)
    }
}

proof fn lemma_word_end_bounds(data: Seq<u8>, pos: int)
    requires
        0 <= pos <= data.len(),
    ensures
        pos <= word_end(data, pos) <= data.len(),
    decreases data.len() - pos,
{
    if pos < data.len() && data[pos] != 32 && data[pos] != 35 && data[pos] != 13 && data[pos]
        != 10 {
        lemma_word_end_bounds(data, pos + 1);
    }
}

/// A word: one or more bytes up to a space, comment mark or line ending.
pub open spec fn word_at(data: Seq<u8>, pos: int) -> Parsed<Seq<u8>> {
    let e = word_end(data, pos);
    if e == pos {
        Parsed::Soft
    } else {
        Parsed::Done(data.subrange(pos, e), e)
    }
}

/// An ignored rest-of-line value: one or more bytes up to a comment mark
/// or line ending.
pub open spec fn rawline_at(data: Seq<u8>, pos: int) -> Parsed<int> {
    let e = raw_end(data, pos);
    if e == pos {
        Parsed::Soft
    } else {
        Parsed::Done(e, e)
    }
}

/// The first position at or after `pos` holding a comment mark or line
/// ending.
pub open spec fn raw_end(data: Seq<u8>, pos: int) -> int
    decreases data.len() - pos,
{
    if pos < 0 || pos >= data.len() || data[pos] == 35 || data[pos] == 13 || data[pos] == 10 {
        pos
    } else {
        raw_end(data, pos + 1)
    }
}

proof fn lemma_raw_end_bounds(data: Seq<u8>, pos: int)
    requires
        0 <= pos <= data.len(),
    ensures
        pos <= raw_end(data, pos) <= data.len(),
    decreases data.len() - pos,
{
    if pos < data.len() && data[pos] != 35 && data[pos] != 13 && data[pos] != 10 {
        lemma_raw_end_bounds(data, pos + 1);
    }
}

/// The position after a tag and its mandatory following space, with any
/// further spaces skipped; `None` when the tag is absent.
pub open spec fn after_tag(data: Seq<u8>, pos: int, t: Seq<u8>) -> Option<int> {
    if tag_at(data, pos, t) && pos + t.len() < data.len() && is_space(data[pos + t.len()]) {
        Some(skip_spaces(data, pos + t.len()))
    } else {
        None
    }
}

/// A texture reference: `-1` or an index into the level's texture name
/// list, with a decimal offset pair.
#[derive(Clone, Copy, Debug, PartialEq, Eq)]
pub struct Texture {
    pub index: Option<usize>,
    pub offset: Vec2<Decimal>,
}

/// A directed wall between two of its sector's vertices. A wall with no
/// adjoined sector is a solid boundary.
#[derive(Clone, Copy, Debug, PartialEq, Eq)]
pub struct Wall {
    pub left_vertex: usize,
    pub right_vertex: usize,
    pub middle_texture: Texture,
    pub top_texture: Texture,
    pub bottom_texture: Texture,
    pub sign_texture: Texture,
    pub adjoin_sector: Option<usize>,
    pub mirror_wall: Option<usize>,
    pub walk_sector: Option<usize>,
    pub flags: (u32, u32, u32),
    pub light: u32,
}

/// What one sector means: its header fields, vertices and walls.
pub ghost struct SectorModel {
    pub id: u32,
    pub name: Option<Seq<u8>>,
    pub ambient: u32,
    pub floor_texture: Texture,
    pub floor_altitude: Decimal,
    pub ceiling_texture: Texture,
    pub ceiling_altitude: Decimal,
    pub second_altitude: Decimal,
    pub flags: (u32, u32, u32),
    pub layer: i32,
    pub vertices: Seq<Vec2<Decimal>>,
    pub walls: Seq<Wall>,
}

/// What a whole level means: palette, parallax, texture names, sectors.
pub ghost struct LevModel {
    pub palette_name: Seq<u8>,
    pub parallax: Vec2<Decimal>,
    pub texture_names: Seq<Seq<u8>>,
    pub sectors: Seq<SectorModel>,
}

/// A 2D floor region bounded by walls, with floor and ceiling planes.
pub struct Sector {
    pub id: u32,
    pub name: Option<Vec<u8>>,
    pub ambient: u32,
    pub floor_texture: Texture,
    pub floor_altitude: Decimal,
    pub ceiling_texture: Texture,
    pub ceiling_altitude: Decimal,
    pub second_altitude: Decimal,
    pub flags: (u32, u32, u32),
    pub layer: i32,
    pub vertices: Vec<Vec2<Decimal>>,
    pub walls: Vec<Wall>,
}

impl View for Sector {
    type V = SectorModel;

    open spec fn view(&self) -> SectorModel {
        SectorModel {
            id: self.id,
            name: match self.name {
                Some(ref n) => Some(n@),
                None => None,
            },
            ambient: self.ambient,
            floor_texture: self.floor_texture,
            floor_altitude: self.floor_altitude,
            ceiling_texture: self.ceiling_texture,
            ceiling_altitude: self.ceiling_altitude,
            second_altitude: self.second_altitude,
            flags: self.flags,
            layer: self.layer,
            vertices: self.vertices@,
            walls: self.walls@,
        }
    }
}

/// A decoded level.
pub struct Lev {
    pub palette_name: Vec<u8>,
    pub parallax: Vec2<Decimal>,
    pub texture_names: Vec<Vec<u8>>,
    pub sectors: Vec<Sector>,
}

impl View for Lev {
    type V = LevModel;

    open spec fn view(&self) -> LevModel {
        LevModel {
            palette_name: self.palette_name@,
            parallax: self.parallax,
            texture_names: self.texture_names@.map_values(|n: Vec<u8>| n@),
            sectors: self.sectors@.map_values(|s: Sector| s@),
        }
    }
}

/// An optional index: the literal `-1` stands for "absent", any other
/// number for itself.
pub open spec fn opt_uint_at(data: Seq<u8>, pos: int) -> Parsed<Option<int>> {
    if tag_at(data, pos, seq![45u8, 49u8]) {
        Parsed::Done(None, skip_spaces(data, pos + 2))
    } else {
        match uint_at(data, pos, usize::MAX as int) {
            Parsed::Done(v, p) => Parsed::Done(Some(v), p),
            _ => Parsed::Soft,
        }
    }
}

/// A texture reference without the legacy flag: an optional index and a
/// decimal offset pair.
pub open spec fn texture_noflag_at(data: Seq<u8>, pos: int) -> Parsed<Texture> {
    match opt_uint_at(data, pos) {
        Parsed::Done(idx, p1) => match decimal_at(data, p1) {
            Parsed::Done(x, p2) => match decimal_at(data, p2) {
                Parsed::Done(y, p3) => Parsed::Done(
                    Texture {
                        index: match idx {
                            Some(v) => Some(v as usize),
                            None => None,
                        },
                        offset: Vec2 { x, y },
                    },
                    p3,
                ),
                _ => Parsed::Soft,
            },
            _ => Parsed::Soft,
        },
        _ => Parsed::Soft,
    }
}

/// A texture reference followed by the unused legacy flag integer, which
/// is consumed and discarded.
pub open spec fn texture_flag_at(data: Seq<u8>, pos: int) -> Parsed<Texture> {
    match texture_noflag_at(data, pos) {
        Parsed::Done(t, p1) => match uint_at(data, p1, u32::MAX as int) {
            Parsed::Done(_, p2) => Parsed::Done(t, p2),
            _ => Parsed::Soft,
        },
        _ => Parsed::Soft,
    }
}

/// Closes an entry line: trailing spaces, then at least one line ending.
/// A missing line ending is a soft failure.
pub open spec fn close_line<T>(data: Seq<u8>, pos: int, v: T) -> Parsed<T> {
    match eol(data, skip_spaces(data, pos)) {
        None => Parsed::Soft,
        Some(p) => Parsed::Done(v, p),
    }
}

/// A `TAG value` line whose value is an unsigned number.
pub open spec fn entry_uint(data: Seq<u8>, pos: int, t: Seq<u8>, max: int) -> Parsed<int> {
    match after_tag(data, pos, t) {
        None => Parsed::Soft,
        Some(p) => match uint_at(data, p, max) {
            Parsed::Done(v, p1) => close_line(data, p1, v),
            _ => Parsed::Hard,
        },
    }
}

/// A `TAG value` line whose value is a signed number.
pub open spec fn entry_sint(data: Seq<u8>, pos: int, t: Seq<u8>) -> Parsed<int> {
    match after_tag(data, pos, t) {
        None => Parsed::Soft,
        Some(p) => match sint_at(data, p) {
            Parsed::Done(v, p1) => close_line(data, p1, v),
            _ => Parsed::Hard,
        },
    }
}

/// A `TAG value` line whose value is ignored raw text.
pub open spec fn entry_rawline(data: Seq<u8>, pos: int, t: Seq<u8>) -> Parsed<int> {
    match after_tag(data, pos, t) {
        None => Parsed::Soft,
        Some(p) => match rawline_at(data, p) {
            Parsed::Done(_, p1) => close_line(data, p1, p1),
            _ => Parsed::Hard,
        },
    }
}

/// A `TAG value` line whose value is a word.
pub open spec fn entry_word(data: Seq<u8>, pos: int, t: Seq<u8>) -> Parsed<Seq<u8>> {
    match after_tag(data, pos, t) {
        None => Parsed::Soft,
        Some(p) => match word_at(data, p) {
            Parsed::Done(w, p1) => close_line(data, p1, w),
            _ => Parsed::Hard,
        },
    }
}

/// A `TAG` line with an optional word value. The tag alone needs no
/// following space; with a space after it, a word must follow.
pub open spec fn entry_opt_word(data: Seq<u8>, pos: int, t: Seq<u8>) -> Parsed<Option<Seq<u8>>> {
    if !tag_at(data, pos, t) {
        Parsed::Soft
    } else {
        let p1 = pos + t.len();
        if p1 < data.len() && is_space(data[p1]) {
            match word_at(data, skip_spaces(data, p1)) {
                Parsed::Done(w, p2) => close_line(data, skip_spaces(data, p2), Some(w)),
                _ => Parsed::Hard,
            }
        } else {
            close_line(data, p1, None)
        }
    }
}

/// A `TAG value` line whose value is a decimal number.
pub open spec fn entry_decimal(data: Seq<u8>, pos: int, t: Seq<u8>) -> Parsed<Decimal> {
    match after_tag(data, pos, t) {
        None => Parsed::Soft,
        Some(p) => match decimal_at(data, p) {
            Parsed::Done(v, p1) => close_line(data, p1, v),
            _ => Parsed::Hard,
        },
    }
}

/// A `TAG x y` line holding a decimal pair.
pub open spec fn entry_decimal_pair(data: Seq<u8>, pos: int, t: Seq<u8>) -> Parsed<Vec2<Decimal>> {
    match after_tag(data, pos, t) {
        None => Parsed::Soft,
        Some(p) => match decimal_at(data, p) {
            Parsed::Done(x, p1) => match decimal_at(data, p1) {
                Parsed::Done(y, p2) => close_line(data, p2, Vec2 { x, y }),
                _ => Parsed::Hard,
            },
            _ => Parsed::Hard,
        },
    }
}

/// A `TAG texture` line carrying a flagged texture reference.
pub open spec fn entry_texture(data: Seq<u8>, pos: int, t: Seq<u8>) -> Parsed<Texture> {
    match after_tag(data, pos, t) {
        None => Parsed::Soft,
        Some(p) => match texture_flag_at(data, p) {
            Parsed::Done(v, p1) => close_line(data, p1, v),
            _ => Parsed::Hard,
        },
    }
}

/// A `TAG a b c` line holding three unsigned flag words.
pub open spec fn entry_flags3(data: Seq<u8>, pos: int, t: Seq<u8>) -> Parsed<(u32, u32, u32)> {
    match after_tag(data, pos, t) {
        None => Parsed::Soft,
        Some(p) => match uint_at(data, p, u32::MAX as int) {
            Parsed::Done(a, p1) => match uint_at(data, p1, u32::MAX as int) {
                Parsed::Done(b, p2) => match uint_at(data, p2, u32::MAX as int) {
                    Parsed::Done(c, p3) => close_line(
                        data,
                        p3,
                        (a as u32, b as u32, c as u32),
                    ),
                    _ => Parsed::Hard,
                },
                _ => Parsed::Hard,
            },
            _ => Parsed::Hard,
        },
    }
}

/// An in-line `TAG: value` field whose value is an unsigned number.
pub open spec fn inline_uint(data: Seq<u8>, pos: int, t: Seq<u8>, max: int) -> Parsed<int> {
    match after_tag(data, pos, t) {
        None => Parsed::Soft,
        Some(p) => match uint_at(data, p, max) {
            Parsed::Done(v, p1) => Parsed::Done(v, skip_spaces(data, p1)),
            _ => Parsed::Hard,
        },
    }
}

/// An in-line `TAG: value` field whose value is an optional index.
pub open spec fn inline_opt_uint(data: Seq<u8>, pos: int, t: Seq<u8>) -> Parsed<Option<int>> {
    match after_tag(data, pos, t) {
        None => Parsed::Soft,
        Some(p) => match opt_uint_at(data, p) {
            Parsed::Done(v, p1) => Parsed::Done(v, skip_spaces(data, p1)),
            _ => Parsed::Hard,
        },
    }
}

/// An in-line `TAG: value` field whose value is a decimal number.
pub open spec fn inline_decimal(data: Seq<u8>, pos: int, t: Seq<u8>) -> Parsed<Decimal> {
    match after_tag(data, pos, t) {
        None => Parsed::Soft,
        Some(p) => match decimal_at(data, p) {
            Parsed::Done(v, p1) => Parsed::Done(v, skip_spaces(data, p1)),
            _ => Parsed::Hard,
        },
    }
}

/// An in-line `TAG: texture` field, with or without the legacy flag.
pub open spec fn inline_texture(data: Seq<u8>, pos: int, t: Seq<u8>, flagged: bool) -> Parsed<
    Texture,
> {
    match after_tag(data, pos, t) {
        None => Parsed::Soft,
        Some(p) => match (if flagged {
            texture_flag_at(data, p)
        } else {
            texture_noflag_at(data, p)
        }) {
            Parsed::Done(v, p1) => Parsed::Done(v, skip_spaces(data, p1)),
            _ => Parsed::Hard,
        },
    }
}

/// An in-line `TAG: a b c` field holding three unsigned flag words.
pub open spec fn inline_flags3(data: Seq<u8>, pos: int, t: Seq<u8>) -> Parsed<(u32, u32, u32)> {
    match after_tag(data, pos, t) {
        None => Parsed::Soft,
        Some(p) => match uint_at(data, p, u32::MAX as int) {
            Parsed::Done(a, p1) => match uint_at(data, p1, u32::MAX as int) {
                Parsed::Done(b, p2) => match uint_at(data, p2, u32::MAX as int) {
                    Parsed::Done(c, p3) => Parsed::Done(
                        (a as u32, b as u32, c as u32),
                        skip_spaces(data, p3),
                    ),
                    _ => Parsed::Hard,
                },
                _ => Parsed::Hard,
            },
            _ => Parsed::Hard,
        },
    }
}

// Tags of the grammar, as byte sequences.
/// The tag `LEV`.
pub open spec fn t_lev() -> Seq<u8> {
    seq![76u8, 69u8, 86u8]
}

/// The tag `LEVELNAME`.
pub open spec fn t_levelname() -> Seq<u8> {
    seq![76u8, 69u8, 86u8, 69u8, 76u8, 78u8, 65u8, 77u8, 69u8]
}

/// The tag `PALETTE`.
pub open spec fn t_palette() -> Seq<u8> {
    seq![80u8, 65u8, 76u8, 69u8, 84u8, 84u8, 69u8]
}

/// The tag `MUSIC`.
pub open spec fn t_music() -> Seq<u8> {
    seq![77u8, 85u8, 83u8, 73u8, 67u8]
}

/// The tag `PARALLAX`.
pub open spec fn t_parallax() -> Seq<u8> {
    seq![80u8, 65u8, 82u8, 65u8, 76u8, 76u8, 65u8, 88u8]
}

/// The tag `TEXTURES`.
pub open spec fn t_textures() -> Seq<u8> {
    seq![84u8, 69u8, 88u8, 84u8, 85u8, 82u8, 69u8, 83u8]
}

/// The tag `TEXTURE:`.
pub open spec fn t_texture_item() -> Seq<u8> {
    seq![84u8, 69u8, 88u8, 84u8, 85u8, 82u8, 69u8, 58u8]
}

/// The tag `NUMSECTORS`.
pub open spec fn t_numsectors() -> Seq<u8> {
    seq![78u8, 85u8, 77u8, 83u8, 69u8, 67u8, 84u8, 79u8, 82u8, 83u8]
}

/// The tag `SECTOR`.
pub open spec fn t_sector() -> Seq<u8> {
    seq![83u8, 69u8, 67u8, 84u8, 79u8, 82u8]
}

/// The tag `NAME`.
pub open spec fn t_name() -> Seq<u8> {
    seq![78u8, 65u8, 77u8, 69u8]
}

/// The tag `AMBIENT`.
pub open spec fn t_ambient() -> Seq<u8> {
    seq![65u8, 77u8, 66u8, 73u8, 69u8, 78u8, 84u8]
}

/// The tag `FLOOR TEXTURE`.
pub open spec fn t_floor_texture() -> Seq<u8> {
    seq![70u8, 76u8, 79u8, 79u8, 82u8, 32u8, 84u8, 69u8, 88u8, 84u8, 85u8, 82u8, 69u8]
}

/// The tag `FLOOR ALTITUDE`.
pub open spec fn t_floor_altitude() -> Seq<u8> {
    seq![70u8, 76u8, 79u8, 79u8, 82u8, 32u8, 65u8, 76u8, 84u8, 73u8, 84u8, 85u8, 68u8, 69u8]
}

/// The tag `CEILING TEXTURE`.
pub open spec fn t_ceiling_texture() -> Seq<u8> {
    seq![67u8, 69u8, 73u8, 76u8, 73u8, 78u8, 71u8, 32u8, 84u8, 69u8, 88u8, 84u8, 85u8, 82u8, 69u8]
}

/// The tag `CEILING ALTITUDE`.
pub open spec fn t_ceiling_altitude() -> Seq<u8> {
    seq![67u8, 69u8, 73u8, 76u8, 73u8, 78u8, 71u8, 32u8, 65u8, 76u8, 84u8, 73u8, 84u8, 85u8, 68u8, 69u8]
}

/// The tag `SECOND ALTITUDE`.
pub open spec fn t_second_altitude() -> Seq<u8> {
    seq![83u8, 69u8, 67u8, 79u8, 78u8, 68u8, 32u8, 65u8, 76u8, 84u8, 73u8, 84u8, 85u8, 68u8, 69u8]
}

/// The tag `FLAGS`.
pub open spec fn t_flags() -> Seq<u8> {
    seq![70u8, 76u8, 65u8, 71u8, 83u8]
}

/// The tag `LAYER`.
pub open spec fn t_layer() -> Seq<u8> {
    seq![76u8, 65u8, 89u8, 69u8, 82u8]
}

/// The tag `VERTICES`.
pub open spec fn t_vertices() -> Seq<u8> {
    seq![86u8, 69u8, 82u8, 84u8, 73u8, 67u8, 69u8, 83u8]
}

/// The tag `WALLS`.
pub open spec fn t_walls() -> Seq<u8> {
    seq![87u8, 65u8, 76u8, 76u8, 83u8]
}

/// The tag `X:`.
pub open spec fn t_x() -> Seq<u8> {
    seq![88u8, 58u8]
}

/// The tag `Z:`.
pub open spec fn t_z() -> Seq<u8> {
    seq![90u8, 58u8]
}

/// The tag `WALL`.
pub open spec fn t_wall() -> Seq<u8> {
    seq![87u8, 65u8, 76u8, 76u8]
}

/// The tag `LEFT:`.
pub open spec fn t_left() -> Seq<u8> {
    seq![76u8, 69u8, 70u8, 84u8, 58u8]
}

/// The tag `RIGHT:`.
pub open spec fn t_right() -> Seq<u8> {
    seq![82u8, 73u8, 71u8, 72u8, 84u8, 58u8]
}

/// The tag `MID:`.
pub open spec fn t_mid() -> Seq<u8> {
    seq![77u8, 73u8, 68u8, 58u8]
}

/// The tag `TOP:`.
pub open spec fn t_top() -> Seq<u8> {
    seq![84u8, 79u8, 80u8, 58u8]
}

/// The tag `BOT:`.
pub open spec fn t_bot() -> Seq<u8> {
    seq![66u8, 79u8, 84u8, 58u8]
}

/// The tag `SIGN:`.
pub open spec fn t_sign() -> Seq<u8> {
    seq![83u8, 73u8, 71u8, 78u8, 58u8]
}

/// The tag `ADJOIN:`.
pub open spec fn t_adjoin() -> Seq<u8> {
    seq![65u8, 68u8, 74u8, 79u8, 73u8, 78u8, 58u8]
}

/// The tag `MIRROR:`.
pub open spec fn t_mirror() -> Seq<u8> {
    seq![77u8, 73u8, 82u8, 82u8, 79u8, 82u8, 58u8]
}

/// The tag `WALK:`.
pub open spec fn t_walk() -> Seq<u8> {
    seq![87u8, 65u8, 76u8, 75u8, 58u8]
}

/// The tag `FLAGS:`.
pub open spec fn t_wflags() -> Seq<u8> {
    seq![70u8, 76u8, 65u8, 71u8, 83u8, 58u8]
}

/// The tag `LIGHT:`.
pub open spec fn t_light() -> Seq<u8> {
    seq![76u8, 73u8, 71u8, 72u8, 84u8, 58u8]
}


/// One wall's six leading fields: vertex pair and the four texture
/// references.
pub open spec fn wall_fields1(data: Seq<u8>, pos: int) -> Parsed<
    (int, int, Texture, Texture, Texture, Texture),
> {
    match inline_uint(data, pos, t_left(), usize::MAX as int) {
        Parsed::Soft => Parsed::Soft,
        Parsed::Hard => Parsed::Hard,
        Parsed::Done(lv, p1) => match inline_uint(data, p1, t_right(), usize::MAX as int) {
            Parsed::Soft => Parsed::Soft,
            Parsed::Hard => Parsed::Hard,
            Parsed::Done(rv, p2) => match inline_texture(data, p2, t_mid(), true) {
                Parsed::Soft => Parsed::Soft,
                Parsed::Hard => Parsed::Hard,
                Parsed::Done(mid, p3) => match inline_texture(data, p3, t_top(), true) {
                    Parsed::Soft => Parsed::Soft,
                    Parsed::Hard => Parsed::Hard,
                    Parsed::Done(top, p4) => match inline_texture(data, p4, t_bot(), true) {
                        Parsed::Soft => Parsed::Soft,
                        Parsed::Hard => Parsed::Hard,
                        Parsed::Done(bot, p5) => match inline_texture(data, p5, t_sign(), false) {
                            Parsed::Soft => Parsed::Soft,
                            Parsed::Hard => Parsed::Hard,
                            Parsed::Done(sign, p6) => Parsed::Done((lv, rv, mid, top, bot, sign), p6),
                        },
                    },
                },
            },
        },
    }
}

/// One wall's five trailing fields: the adjoin, mirror and walk links,
/// the flag words, and the light level.
pub open spec fn wall_fields2(data: Seq<u8>, pos: int) -> Parsed<
    (Option<int>, Option<int>, Option<int>, (u32, u32, u32), int),
> {
    match inline_opt_uint(data, pos, t_adjoin()) {
        Parsed::Soft => Parsed::Soft,
        Parsed::Hard => Parsed::Hard,
        Parsed::Done(adjoin, p1) => match inline_opt_uint(data, p1, t_mirror()) {
            Parsed::Soft => Parsed::Soft,
            Parsed::Hard => Parsed::Hard,
            Parsed::Done(mirror, p2) => match inline_opt_uint(data, p2, t_walk()) {
                Parsed::Soft => Parsed::Soft,
                Parsed::Hard => Parsed::Hard,
                Parsed::Done(walk, p3) => match inline_flags3(data, p3, t_wflags()) {
                    Parsed::Soft => Parsed::Soft,
                    Parsed::Hard => Parsed::Hard,
                    Parsed::Done(flags, p4) => match inline_uint(data, p4, t_light(), u32::MAX as int) {
                        Parsed::Soft => Parsed::Soft,
                        Parsed::Hard => Parsed::Hard,
                        Parsed::Done(light, p5) => Parsed::Done((adjoin, mirror, walk, flags, light), p5),
                    },
                },
            },
        },
    }
}

/// The absent-or-index form an optional link takes in a wall.
pub open spec fn opt_index(v: Option<int>) -> Option<usize> {
    match v {
        Some(i) => Some(i as usize),
        None => None,
    }
}

/// One wall: its eleven `TAG: value` fields, then the end of the line.
pub open spec fn wall_at(data: Seq<u8>, pos: int) -> Parsed<Wall> {
    match wall_fields1(data, pos) {
        Parsed::Soft => Parsed::Soft,
        Parsed::Hard => Parsed::Hard,
        Parsed::Done(f1, p1) => match wall_fields2(data, p1) {
            Parsed::Soft => Parsed::Soft,
            Parsed::Hard => Parsed::Hard,
            Parsed::Done(f2, p2) => match eol(data, p2) {
                None => Parsed::Soft,
                Some(p3) => Parsed::Done(
                    Wall {
                        left_vertex: f1.0 as usize,
                        right_vertex: f1.1 as usize,
                        middle_texture: f1.2,
                        top_texture: f1.3,
                        bottom_texture: f1.4,
                        sign_texture: f1.5,
                        adjoin_sector: opt_index(f2.0),
                        mirror_wall: opt_index(f2.1),
                        walk_sector: opt_index(f2.2),
                        flags: f2.3,
                        light: f2.4 as u32,
                    },
                    p3,
                ),
            },
        },
    }
}

/// One vertex line: `X:` and `Z:` coordinates, then the end of the line.
pub open spec fn vertex_line_at(data: Seq<u8>, pos: int) -> Parsed<Vec2<Decimal>> {
    match inline_decimal(data, pos, t_x()) {
        Parsed::Soft => Parsed::Soft,
        Parsed::Hard => Parsed::Hard,
        Parsed::Done(x, p1) => match inline_decimal(data, p1, t_z()) {
            Parsed::Soft => Parsed::Soft,
            Parsed::Hard => Parsed::Hard,
            Parsed::Done(y, p2) => match eol(data, p2) {
                None => Parsed::Soft,
                Some(p3) => Parsed::Done(Vec2 { x, y }, p3),
            },
        },
    }
}

/// Exactly `n` vertex lines.
pub open spec fn vertices_at(data: Seq<u8>, pos: int, n: int) -> Parsed<Seq<Vec2<Decimal>>>
    decreases n,
{
    if n <= 0 {
        Parsed::Done(Seq::empty(), pos)
    } else {
        match vertex_line_at(data, pos) {
            Parsed::Soft => Parsed::Soft,
            Parsed::Hard => Parsed::Hard,
            Parsed::Done(v, p) => match vertices_at(data, p, n - 1) {
                Parsed::Soft => Parsed::Soft,
                Parsed::Hard => Parsed::Hard,
                Parsed::Done(rest, p2) => Parsed::Done(seq![v] + rest, p2),
            },
        }
    }
}

/// One `WALL ...` line: the tag, then the wall, whose own failures are
/// fatal.
pub open spec fn wall_entry_at(data: Seq<u8>, pos: int) -> Parsed<Wall> {
    match after_tag(data, pos, t_wall()) {
        None => Parsed::Soft,
        Some(p) => match wall_at(data, p) {
            Parsed::Done(w, p1) => Parsed::Done(w, skip_spaces(data, p1)),
            _ => Parsed::Hard,
        },
    }
}

/// Exactly `n` wall lines.
pub open spec fn walls_at(data: Seq<u8>, pos: int, n: int) -> Parsed<Seq<Wall>>
    decreases n,
{
    if n <= 0 {
        Parsed::Done(Seq::empty(), pos)
    } else {
        match wall_entry_at(data, pos) {
            Parsed::Soft => Parsed::Soft,
            Parsed::Hard => Parsed::Hard,
            Parsed::Done(w, p) => match walls_at(data, p, n - 1) {
                Parsed::Soft => Parsed::Soft,
                Parsed::Hard => Parsed::Hard,
                Parsed::Done(rest, p2) => Parsed::Done(seq![w] + rest, p2),
            },
        }
    }
}

/// A sector's identity lines: id, optional name, ambient light, floor
/// texture.
pub open spec fn sector_head_a(data: Seq<u8>, pos: int) -> Parsed<
    (u32, Option<Seq<u8>>, u32, Texture),
> {
    match entry_uint(data, pos, t_sector(), u32::MAX as int) {
        Parsed::Soft => Parsed::Soft,
        Parsed::Hard => Parsed::Hard,
        Parsed::Done(id, p1) => match entry_opt_word(data, p1, t_name()) {
            Parsed::Soft => Parsed::Soft,
            Parsed::Hard => Parsed::Hard,
            Parsed::Done(name, p2) => match entry_uint(data, p2, t_ambient(), u32::MAX as int) {
                Parsed::Soft => Parsed::Soft,
                Parsed::Hard => Parsed::Hard,
                Parsed::Done(ambient, p3) => match entry_texture(data, p3, t_floor_texture()) {
                    Parsed::Soft => Parsed::Soft,
                    Parsed::Hard => Parsed::Hard,
                    Parsed::Done(ftex, p4) => Parsed::Done(
                        (id as u32, name, ambient as u32, ftex),
                        p4,
                    ),
                },
            },
        },
    }
}

/// A sector's plane lines: floor altitude, ceiling texture and altitude,
/// second altitude.
pub open spec fn sector_head_b(data: Seq<u8>, pos: int) -> Parsed<
    (Decimal, Texture, Decimal, Decimal),
> {
    match entry_decimal(data, pos, t_floor_altitude()) {
        Parsed::Soft => Parsed::Soft,
        Parsed::Hard => Parsed::Hard,
        Parsed::Done(falt, p1) => match entry_texture(data, p1, t_ceiling_texture()) {
            Parsed::Soft => Parsed::Soft,
            Parsed::Hard => Parsed::Hard,
            Parsed::Done(ctex, p2) => match entry_decimal(data, p2, t_ceiling_altitude()) {
                Parsed::Soft => Parsed::Soft,
                Parsed::Hard => Parsed::Hard,
                Parsed::Done(calt, p3) => match entry_decimal(data, p3, t_second_altitude()) {
                    Parsed::Soft => Parsed::Soft,
                    Parsed::Hard => Parsed::Hard,
                    Parsed::Done(salt, p4) => Parsed::Done((falt, ctex, calt, salt), p4),
                },
            },
        },
    }
}

/// A sector's flags and layer lines.
pub open spec fn sector_head_c(data: Seq<u8>, pos: int) -> Parsed<((u32, u32, u32), i32)> {
    match entry_flags3(data, pos, t_flags()) {
        Parsed::Soft => Parsed::Soft,
        Parsed::Hard => Parsed::Hard,
        Parsed::Done(flags, p1) => match entry_sint(data, p1, t_layer()) {
            Parsed::Soft => Parsed::Soft,
            Parsed::Hard => Parsed::Hard,
            Parsed::Done(layer, p2) => Parsed::Done((flags, layer as i32), p2),
        },
    }
}

/// One whole sector block: the header lines, then the declared number of
/// vertex lines and wall lines.
pub open spec fn sector_at(data: Seq<u8>, pos: int) -> Parsed<SectorModel> {
    match sector_head_a(data, pos) {
        Parsed::Soft => Parsed::Soft,
        Parsed::Hard => Parsed::Hard,
        Parsed::Done(a, p1) => match sector_head_b(data, p1) {
            Parsed::Soft => Parsed::Soft,
            Parsed::Hard => Parsed::Hard,
            Parsed::Done(b, p2) => match sector_head_c(data, p2) {
                Parsed::Soft => Parsed::Soft,
                Parsed::Hard => Parsed::Hard,
                Parsed::Done(c, p3) => match entry_uint(data, p3, t_vertices(), usize::MAX as int) {
                    Parsed::Soft => Parsed::Soft,
                    Parsed::Hard => Parsed::Hard,
                    Parsed::Done(nv, p4) => match vertices_at(data, p4, nv) {
                        Parsed::Soft => Parsed::Soft,
                        Parsed::Hard => Parsed::Hard,
                        Parsed::Done(verts, p5) => match entry_uint(data, p5, t_walls(), usize::MAX as int) {
                            Parsed::Soft => Parsed::Soft,
                            Parsed::Hard => Parsed::Hard,
                            Parsed::Done(nw, p6) => match walls_at(data, p6, nw) {
                                Parsed::Soft => Parsed::Soft,
                                Parsed::Hard => Parsed::Hard,
                                Parsed::Done(ws, p7) => Parsed::Done(
                                    SectorModel {
                                        id: a.0,
                                        name: a.1,
                                        ambient: a.2,
                                        floor_texture: a.3,
                                        floor_altitude: b.0,
                                        ceiling_texture: b.1,
                                        ceiling_altitude: b.2,
                                        second_altitude: b.3,
                                        flags: c.0,
                                        layer: c.1,
                                        vertices: verts,
                                        walls: ws,
                                    },
                                    p7,
                                ),
                            },
                        },
                    },
                },
            },
        },
    }
}

// Position bounds of each parser: a successful parse moves strictly
// forward and stays inside the input. These feed the termination of the
// unbounded repetitions.
proof fn lemma_uint_at_bounds(data: Seq<u8>, pos: int, max: int)
    requires
        0 <= pos <= data.len(),
    ensures
        match uint_at(data, pos, max) {
            Parsed::Done(_, p) => pos < p <= data.len(),
            _ => true,
        },
{
    lemma_digits_end_bounds(data, pos);
    let e = digits_end(data, pos);
    if e != pos {
        lemma_skip_spaces_bounds(data, e);
    }
}

proof fn lemma_sint_at_bounds(data: Seq<u8>, pos: int)
    requires
        0 <= pos <= data.len(),
    ensures
        match sint_at(data, pos) {
            Parsed::Done(_, p) => pos < p <= data.len(),
            _ => true,
        },
{
    let neg = 0 <= pos < data.len() && data[pos] == 45;
    let p1 = if neg { pos + 1 } else { pos };
    lemma_digits_end_bounds(data, p1);
    let e = digits_end(data, p1);
    if e != p1 {
        lemma_skip_spaces_bounds(data, e);
    }
}

proof fn lemma_decimal_at_bounds(data: Seq<u8>, pos: int)
    requires
        0 <= pos <= data.len(),
    ensures
        match decimal_at(data, pos) {
            Parsed::Done(_, p) => pos < p <= data.len(),
            _ => true,
        },
{
    let neg = 0 <= pos < data.len() && data[pos] == 45;
    let p1 = if neg { pos + 1 } else { pos };
    lemma_digits_end_bounds(data, p1);
    let e1 = digits_end(data, p1);
    if e1 != p1 && e1 < data.len() && data[e1] == 46 {
        lemma_digits_end_bounds(data, e1 + 1);
        let e2 = digits_end(data, e1 + 1);
        lemma_skip_spaces_bounds(data, e2);
    }
}

proof fn lemma_word_at_bounds(data: Seq<u8>, pos: int)
    requires
        0 <= pos <= data.len(),
    ensures
        match word_at(data, pos) {
            Parsed::Done(_, p) => pos < p <= data.len(),
            _ => true,
        },
{
    lemma_word_end_bounds(data, pos);
}

proof fn lemma_rawline_at_bounds(data: Seq<u8>, pos: int)
    requires
        0 <= pos <= data.len(),
    ensures
        match rawline_at(data, pos) {
            Parsed::Done(_, p) => pos < p <= data.len(),
            _ => true,
        },
{
    lemma_raw_end_bounds(data, pos);
}

proof fn lemma_opt_uint_at_bounds(data: Seq<u8>, pos: int)
    requires
        0 <= pos <= data.len(),
    ensures
        match opt_uint_at(data, pos) {
            Parsed::Done(_, p) => pos < p <= data.len(),
            _ => true,
        },
{
    if tag_at(data, pos, seq![45u8, 49u8]) {
        lemma_skip_spaces_bounds(data, pos + 2);
    } else {
        lemma_uint_at_bounds(data, pos, usize::MAX as int);
    }
}

proof fn lemma_texture_noflag_at_bounds(data: Seq<u8>, pos: int)
    requires
        0 <= pos <= data.len(),
    ensures
        match texture_noflag_at(data, pos) {
            Parsed::Done(_, p) => pos < p <= data.len(),
            _ => true,
        },
{
    lemma_opt_uint_at_bounds(data, pos);
    match opt_uint_at(data, pos) {
        Parsed::Done(_, p1) => {
            lemma_decimal_at_bounds(data, p1);
            match decimal_at(data, p1) {
                Parsed::Done(_, p2) => {
                    lemma_decimal_at_bounds(data, p2);
                },
                _ => {},
            }
        },
        _ => {},
    }
}

proof fn lemma_texture_flag_at_bounds(data: Seq<u8>, pos: int)
    requires
        0 <= pos <= data.len(),
    ensures
        match texture_flag_at(data, pos) {
            Parsed::Done(_, p) => pos < p <= data.len(),
            _ => true,
        },
{
    lemma_texture_noflag_at_bounds(data, pos);
    match texture_noflag_at(data, pos) {
        Parsed::Done(_, p1) => {
            lemma_uint_at_bounds(data, p1, u32::MAX as int);
        },
        _ => {},
    }
}

proof fn lemma_after_tag_bounds(data: Seq<u8>, pos: int, t: Seq<u8>)
    requires
        0 <= pos <= data.len(),
    ensures
        match after_tag(data, pos, t) {
            Some(p) => pos < p <= data.len(),
            None => true,
        },
{
    if tag_at(data, pos, t) && pos + t.len() < data.len() && is_space(data[pos + t.len()]) {
        lemma_skip_spaces_bounds(data, pos + t.len() + 1);
        assert(skip_spaces(data, pos + t.len()) == skip_spaces(data, pos + t.len() + 1));
    }
}

proof fn lemma_close_line_bounds<T>(data: Seq<u8>, pos: int, v: T)
    requires
        0 <= pos <= data.len(),
    ensures
        match close_line(data, pos, v) {
            Parsed::Done(_, p) => pos < p <= data.len(),
            _ => true,
        },
{
    lemma_skip_spaces_bounds(data, pos);
    lemma_eol_bounds(data, skip_spaces(data, pos));
}

proof fn lemma_entry_uint_bounds(data: Seq<u8>, pos: int, t: Seq<u8>, max: int)
    requires
        0 <= pos <= data.len(),
    ensures
        match entry_uint(data, pos, t, max) {
            Parsed::Done(_, p) => pos < p <= data.len(),
            _ => true,
        },
{
    lemma_after_tag_bounds(data, pos, t);
    match after_tag(data, pos, t) {
        Some(q) => {
            lemma_uint_at_bounds(data, q, max);
            match uint_at(data, q, max) {
                Parsed::Done(v, p1) => {
                    lemma_close_line_bounds(data, p1, v);
                },
                _ => {},
            }
        },
        None => {},
    }
}

proof fn lemma_entry_sint_bounds(data: Seq<u8>, pos: int, t: Seq<u8>)
    requires
        0 <= pos <= data.len(),
    ensures
        match entry_sint(data, pos, t) {
            Parsed::Done(_, p) => pos < p <= data.len(),
            _ => true,
        },
{
    lemma_after_tag_bounds(data, pos, t);
    match after_tag(data, pos, t) {
        Some(q) => {
            lemma_sint_at_bounds(data, q);
            match sint_at(data, q) {
                Parsed::Done(v, p1) => {
                    lemma_close_line_bounds(data, p1, v);
                },
                _ => {},
            }
        },
        None => {},
    }
}

proof fn lemma_entry_rawline_bounds(data: Seq<u8>, pos: int, t: Seq<u8>)
    requires
        0 <= pos <= data.len(),
    ensures
        match entry_rawline(data, pos, t) {
            Parsed::Done(_, p) => pos < p <= data.len(),
            _ => true,
        },
{
    lemma_after_tag_bounds(data, pos, t);
    match after_tag(data, pos, t) {
        Some(q) => {
            lemma_rawline_at_bounds(data, q);
            match rawline_at(data, q) {
                Parsed::Done(v, p1) => {
                    lemma_close_line_bounds(data, p1, v);
                },
                _ => {},
            }
        },
        None => {},
    }
}

proof fn lemma_entry_word_bounds(data: Seq<u8>, pos: int, t: Seq<u8>)
    requires
        0 <= pos <= data.len(),
    ensures
        match entry_word(data, pos, t) {
            Parsed::Done(_, p) => pos < p <= data.len(),
            _ => true,
        },
{
    lemma_after_tag_bounds(data, pos, t);
    match after_tag(data, pos, t) {
        Some(q) => {
            lemma_word_at_bounds(data, q);
            match word_at(data, q) {
                Parsed::Done(v, p1) => {
                    lemma_close_line_bounds(data, p1, v);
                },
                _ => {},
            }
        },
        None => {},
    }
}

proof fn lemma_entry_decimal_bounds(data: Seq<u8>, pos: int, t: Seq<u8>)
    requires
        0 <= pos <= data.len(),
    ensures
        match entry_decimal(data, pos, t) {
            Parsed::Done(_, p) => pos < p <= data.len(),
            _ => true,
        },
{
    lemma_after_tag_bounds(data, pos, t);
    match after_tag(data, pos, t) {
        Some(q) => {
            lemma_decimal_at_bounds(data, q);
            match decimal_at(data, q) {
                Parsed::Done(v, p1) => {
                    lemma_close_line_bounds(data, p1, v);
                },
                _ => {},
            }
        },
        None => {},
    }
}

proof fn lemma_entry_texture_bounds(data: Seq<u8>, pos: int, t: Seq<u8>)
    requires
        0 <= pos <= data.len(),
    ensures
        match entry_texture(data, pos, t) {
            Parsed::Done(_, p) => pos < p <= data.len(),
            _ => true,
        },
{
    lemma_after_tag_bounds(data, pos, t);
    match after_tag(data, pos, t) {
        Some(q) => {
            lemma_texture_flag_at_bounds(data, q);
            match texture_flag_at(data, q) {
                Parsed::Done(v, p1) => {
                    lemma_close_line_bounds(data, p1, v);
                },
                _ => {},
            }
        },
        None => {},
    }
}

proof fn lemma_entry_decimal_pair_bounds(data: Seq<u8>, pos: int, t: Seq<u8>)
    requires
        0 <= pos <= data.len(),
    ensures
        match entry_decimal_pair(data, pos, t) {
            Parsed::Done(_, p) => pos < p <= data.len(),
            _ => true,
        },
{
    lemma_after_tag_bounds(data, pos, t);
    match after_tag(data, pos, t) {
        Some(q) => {
            lemma_decimal_at_bounds(data, q);
            match decimal_at(data, q) {
                Parsed::Done(x, p1) => {
                    lemma_decimal_at_bounds(data, p1);
                    match decimal_at(data, p1) {
                        Parsed::Done(y, p2) => {
                            lemma_close_line_bounds(data, p2, Vec2 { x, y });
                        },
                        _ => {},
                    }
                },
                _ => {},
            }
        },
        None => {},
    }
}

proof fn lemma_entry_flags3_bounds(data: Seq<u8>, pos: int, t: Seq<u8>)
    requires
        0 <= pos <= data.len(),
    ensures
        match entry_flags3(data, pos, t) {
            Parsed::Done(_, p) => pos < p <= data.len(),
            _ => true,
        },
{
    lemma_after_tag_bounds(data, pos, t);
    match after_tag(data, pos, t) {
        Some(q) => {
            lemma_uint_at_bounds(data, q, u32::MAX as int);
            match uint_at(data, q, u32::MAX as int) {
                Parsed::Done(a, p1) => {
                    lemma_uint_at_bounds(data, p1, u32::MAX as int);
                    match uint_at(data, p1, u32::MAX as int) {
                        Parsed::Done(b, p2) => {
                            lemma_uint_at_bounds(data, p2, u32::MAX as int);
                            match uint_at(data, p2, u32::MAX as int) {
                                Parsed::Done(c, p3) => {
                                    lemma_close_line_bounds(
                                        data,
                                        p3,
                                        (a as u32, b as u32, c as u32),
                                    );
                                },
                                _ => {},
                            }
                        },
                        _ => {},
                    }
                },
                _ => {},
            }
        },
        None => {},
    }
}

proof fn lemma_entry_opt_word_bounds(data: Seq<u8>, pos: int, t: Seq<u8>)
    requires
        0 <= pos <= data.len(),
    ensures
        match entry_opt_word(data, pos, t) {
            Parsed::Done(_, p) => pos < p <= data.len(),
            _ => true,
        },
{
    if tag_at(data, pos, t) {
        let p1 = pos + t.len();
        if p1 < data.len() && is_space(data[p1]) {
            lemma_skip_spaces_bounds(data, p1);
            lemma_word_at_bounds(data, skip_spaces(data, p1));
            match word_at(data, skip_spaces(data, p1)) {
                Parsed::Done(w, p2) => {
                    lemma_skip_spaces_bounds(data, p2);
                    lemma_close_line_bounds(data, skip_spaces(data, p2), Some(w));
                },
                _ => {},
            }
        } else {
            lemma_close_line_bounds(data, p1, None::<Seq<u8>>);
        }
    }
}

proof fn lemma_inline_uint_bounds(data: Seq<u8>, pos: int, t: Seq<u8>, max: int)
    requires
        0 <= pos <= data.len(),
    ensures
        match inline_uint(data, pos, t, max) {
            Parsed::Done(_, p) => pos < p <= data.len(),
            _ => true,
        },
{
    lemma_after_tag_bounds(data, pos, t);
    match after_tag(data, pos, t) {
        Some(q) => {
            lemma_uint_at_bounds(data, q, max);
            match uint_at(data, q, max) {
                Parsed::Done(_, p1) => {
                    lemma_skip_spaces_bounds(data, p1);
                },
                _ => {},
            }
        },
        None => {},
    }
}

proof fn lemma_inline_opt_uint_bounds(data: Seq<u8>, pos: int, t: Seq<u8>)
    requires
        0 <= pos <= data.len(),
    ensures
        match inline_opt_uint(data, pos, t) {
            Parsed::Done(_, p) => pos < p <= data.len(),
            _ => true,
        },
{
    lemma_after_tag_bounds(data, pos, t);
    match after_tag(data, pos, t) {
        Some(q) => {
            lemma_opt_uint_at_bounds(data, q);
            match opt_uint_at(data, q) {
                Parsed::Done(_, p1) => {
                    lemma_skip_spaces_bounds(data, p1);
                },
                _ => {},
            }
        },
        None => {},
    }
}

proof fn lemma_inline_decimal_bounds(data: Seq<u8>, pos: int, t: Seq<u8>)
    requires
        0 <= pos <= data.len(),
    ensures
        match inline_decimal(data, pos, t) {
            Parsed::Done(_, p) => pos < p <= data.len(),
            _ => true,
        },
{
    lemma_after_tag_bounds(data, pos, t);
    match after_tag(data, pos, t) {
        Some(q) => {
            lemma_decimal_at_bounds(data, q);
            match decimal_at(data, q) {
                Parsed::Done(_, p1) => {
                    lemma_skip_spaces_bounds(data, p1);
                },
                _ => {},
            }
        },
        None => {},
    }
}

proof fn lemma_inline_texture_bounds(data: Seq<u8>, pos: int, t: Seq<u8>, flagged: bool)
    requires
        0 <= pos <= data.len(),
    ensures
        match inline_texture(data, pos, t, flagged) {
            Parsed::Done(_, p) => pos < p <= data.len(),
            _ => true,
        },
{
    lemma_after_tag_bounds(data, pos, t);
    match after_tag(data, pos, t) {
        Some(q) => {
            lemma_texture_flag_at_bounds(data, q);
            lemma_texture_noflag_at_bounds(data, q);
            match (if flagged { texture_flag_at(data, q) } else { texture_noflag_at(data, q) }) {
                Parsed::Done(_, p1) => {
                    lemma_skip_spaces_bounds(data, p1);
                },
                _ => {},
            }
        },
        None => {},
    }
}

proof fn lemma_inline_flags3_bounds(data: Seq<u8>, pos: int, t: Seq<u8>)
    requires
        0 <= pos <= data.len(),
    ensures
        match inline_flags3(data, pos, t) {
            Parsed::Done(_, p) => pos < p <= data.len(),
            _ => true,
        },
{
    lemma_after_tag_bounds(data, pos, t);
    match after_tag(data, pos, t) {
        Some(q) => {
            lemma_uint_at_bounds(data, q, u32::MAX as int);
            match uint_at(data, q, u32::MAX as int) {
                Parsed::Done(_, p1) => {
                    lemma_uint_at_bounds(data, p1, u32::MAX as int);
                    match uint_at(data, p1, u32::MAX as int) {
                        Parsed::Done(_, p2) => {
                            lemma_uint_at_bounds(data, p2, u32::MAX as int);
                            match uint_at(data, p2, u32::MAX as int) {
                                Parsed::Done(_, p3) => {
                                    lemma_skip_spaces_bounds(data, p3);
                                },
                                _ => {},
                            }
                        },
                        _ => {},
                    }
                },
                _ => {},
            }
        },
        None => {},
    }
}

proof fn lemma_wall_fields1_bounds(data: Seq<u8>, pos: int)
    requires
        0 <= pos <= data.len(),
    ensures
        match wall_fields1(data, pos) {
            Parsed::Done(_, p) => pos < p <= data.len(),
            _ => true,
        },
{
    lemma_inline_uint_bounds(data, pos, t_left(), usize::MAX as int);
    match inline_uint(data, pos, t_left(), usize::MAX as int) {
        Parsed::Done(_, p1) => {
            lemma_inline_uint_bounds(data, p1, t_right(), usize::MAX as int);
            match inline_uint(data, p1, t_right(), usize::MAX as int) {
                Parsed::Done(_, p2) => {
                    lemma_inline_texture_bounds(data, p2, t_mid(), true);
                    match inline_texture(data, p2, t_mid(), true) {
                        Parsed::Done(_, p3) => {
                            lemma_inline_texture_bounds(data, p3, t_top(), true);
                            match inline_texture(data, p3, t_top(), true) {
                                Parsed::Done(_, p4) => {
                                    lemma_inline_texture_bounds(data, p4, t_bot(), true);
                                    match inline_texture(data, p4, t_bot(), true) {
                                        Parsed::Done(_, p5) => {
                                            lemma_inline_texture_bounds(data, p5, t_sign(), false);
                                        },
                                        _ => {},
                                    }
                                },
                                _ => {},
                            }
                        },
                        _ => {},
                    }
                },
                _ => {},
            }
        },
        _ => {},
    }
}

proof fn lemma_wall_fields2_bounds(data: Seq<u8>, pos: int)
    requires
        0 <= pos <= data.len(),
    ensures
        match wall_fields2(data, pos) {
            Parsed::Done(_, p) => pos < p <= data.len(),
            _ => true,
        },
{
    lemma_inline_opt_uint_bounds(data, pos, t_adjoin());
    match inline_opt_uint(data, pos, t_adjoin()) {
        Parsed::Done(_, p1) => {
            lemma_inline_opt_uint_bounds(data, p1, t_mirror());
            match inline_opt_uint(data, p1, t_mirror()) {
                Parsed::Done(_, p2) => {
                    lemma_inline_opt_uint_bounds(data, p2, t_walk());
                    match inline_opt_uint(data, p2, t_walk()) {
                        Parsed::Done(_, p3) => {
                            lemma_inline_flags3_bounds(data, p3, t_wflags());
                            match inline_flags3(data, p3, t_wflags()) {
                                Parsed::Done(_, p4) => {
                                    lemma_inline_uint_bounds(data, p4, t_light(), u32::MAX as int);
                                },
                                _ => {},
                            }
                        },
                        _ => {},
                    }
                },
                _ => {},
            }
        },
        _ => {},
    }
}

proof fn lemma_wall_at_bounds(data: Seq<u8>, pos: int)
    requires
        0 <= pos <= data.len(),
    ensures
        match wall_at(data, pos) {
            Parsed::Done(_, p) => pos < p <= data.len(),
            _ => true,
        },
{
    lemma_wall_fields1_bounds(data, pos);
    match wall_fields1(data, pos) {
        Parsed::Done(_, p1) => {
            lemma_wall_fields2_bounds(data, p1);
            match wall_fields2(data, p1) {
                Parsed::Done(_, p2) => {
                    lemma_eol_bounds(data, p2);
                },
                _ => {},
            }
        },
        _ => {},
    }
}

proof fn lemma_vertex_line_at_bounds(data: Seq<u8>, pos: int)
    requires
        0 <= pos <= data.len(),
    ensures
        match vertex_line_at(data, pos) {
            Parsed::Done(_, p) => pos < p <= data.len(),
            _ => true,
        },
{
    lemma_inline_decimal_bounds(data, pos, t_x());
    match inline_decimal(data, pos, t_x()) {
        Parsed::Done(_, p1) => {
            lemma_inline_decimal_bounds(data, p1, t_z());
            match inline_decimal(data, p1, t_z()) {
                Parsed::Done(_, p2) => {
                    lemma_eol_bounds(data, p2);
                },
                _ => {},
            }
        },
        _ => {},
    }
}

proof fn lemma_vertices_at_bounds(data: Seq<u8>, pos: int, n: int)
    requires
        0 <= pos <= data.len(),
    ensures
        match vertices_at(data, pos, n) {
            Parsed::Done(_, p) => pos <= p <= data.len(),
            _ => true,
        },
    decreases n,
{
    if n > 0 {
        lemma_vertex_line_at_bounds(data, pos);
        match vertex_line_at(data, pos) {
            Parsed::Done(_, p) => {
                lemma_vertices_at_bounds(data, p, n - 1);
            },
            _ => {},
        }
    }
}

proof fn lemma_wall_entry_at_bounds(data: Seq<u8>, pos: int)
    requires
        0 <= pos <= data.len(),
    ensures
        match wall_entry_at(data, pos) {
            Parsed::Done(_, p) => pos < p <= data.len(),
            _ => true,
        },
{
    lemma_after_tag_bounds(data, pos, t_wall());
    match after_tag(data, pos, t_wall()) {
        Some(q) => {
            lemma_wall_at_bounds(data, q);
            match wall_at(data, q) {
                Parsed::Done(_, p1) => {
                    lemma_skip_spaces_bounds(data, p1);
                },
                _ => {},
            }
        },
        None => {},
    }
}

proof fn lemma_walls_at_bounds(data: Seq<u8>, pos: int, n: int)
    requires
        0 <= pos <= data.len(),
    ensures
        match walls_at(data, pos, n) {
            Parsed::Done(_, p) => pos <= p <= data.len(),
            _ => true,
        },
    decreases n,
{
    if n > 0 {
        lemma_wall_entry_at_bounds(data, pos);
        match wall_entry_at(data, pos) {
            Parsed::Done(_, p) => {
                lemma_walls_at_bounds(data, p, n - 1);
            },
            _ => {},
        }
    }
}

proof fn lemma_sector_at_bounds(data: Seq<u8>, pos: int)
    requires
        0 <= pos <= data.len(),
    ensures
        match sector_at(data, pos) {
            Parsed::Done(_, p) => pos < p <= data.len(),
            _ => true,
        },
{
    lemma_sector_head_a_bounds(data, pos);
    match sector_head_a(data, pos) {
        Parsed::Done(_, p1) => {
            lemma_sector_head_b_bounds(data, p1);
            match sector_head_b(data, p1) {
                Parsed::Done(_, p2) => {
                    lemma_sector_head_c_bounds(data, p2);
                    match sector_head_c(data, p2) {
                        Parsed::Done(_, p3) => {
                            lemma_entry_uint_bounds(data, p3, t_vertices(), usize::MAX as int);
                            match entry_uint(data, p3, t_vertices(), usize::MAX as int) {
                                Parsed::Done(nv, p4) => {
                                    lemma_vertices_at_bounds(data, p4, nv);
                                    match vertices_at(data, p4, nv) {
                                        Parsed::Done(_, p5) => {
                                            lemma_entry_uint_bounds(
                                                data,
                                                p5,
                                                t_walls(),
                                                usize::MAX as int,
                                            );
                                            match entry_uint(data, p5, t_walls(), usize::MAX as int) {
                                                Parsed::Done(nw, p6) => {
                                                    lemma_walls_at_bounds(data, p6, nw);
                                                },
                                                _ => {},
                                            }
                                        },
                                        _ => {},
                                    }
                                },
                                _ => {},
                            }
                        },
                        _ => {},
                    }
                },
                _ => {},
            }
        },
        _ => {},
    }
}

proof fn lemma_sector_head_a_bounds(data: Seq<u8>, pos: int)
    requires
        0 <= pos <= data.len(),
    ensures
        match sector_head_a(data, pos) {
            Parsed::Done(_, p) => pos < p <= data.len(),
            _ => true,
        },
{
    lemma_entry_uint_bounds(data, pos, t_sector(), u32::MAX as int);
    match entry_uint(data, pos, t_sector(), u32::MAX as int) {
        Parsed::Done(_, p1) => {
            lemma_entry_opt_word_bounds(data, p1, t_name());
            match entry_opt_word(data, p1, t_name()) {
                Parsed::Done(_, p2) => {
                    lemma_entry_uint_bounds(data, p2, t_ambient(), u32::MAX as int);
                    match entry_uint(data, p2, t_ambient(), u32::MAX as int) {
                        Parsed::Done(_, p3) => {
                            lemma_entry_texture_bounds(data, p3, t_floor_texture());
                        },
                        _ => {},
                    }
                },
                _ => {},
            }
        },
        _ => {},
    }
}

proof fn lemma_sector_head_b_bounds(data: Seq<u8>, pos: int)
    requires
        0 <= pos <= data.len(),
    ensures
        match sector_head_b(data, pos) {
            Parsed::Done(_, p) => pos < p <= data.len(),
            _ => true,
        },
{
    lemma_entry_decimal_bounds(data, pos, t_floor_altitude());
    match entry_decimal(data, pos, t_floor_altitude()) {
        Parsed::Done(_, p1) => {
            lemma_entry_texture_bounds(data, p1, t_ceiling_texture());
            match entry_texture(data, p1, t_ceiling_texture()) {
                Parsed::Done(_, p2) => {
                    lemma_entry_decimal_bounds(data, p2, t_ceiling_altitude());
                    match entry_decimal(data, p2, t_ceiling_altitude()) {
                        Parsed::Done(_, p3) => {
                            lemma_entry_decimal_bounds(data, p3, t_second_altitude());
                        },
                        _ => {},
                    }
                },
                _ => {},
            }
        },
        _ => {},
    }
}

proof fn lemma_sector_head_c_bounds(data: Seq<u8>, pos: int)
    requires
        0 <= pos <= data.len(),
    ensures
        match sector_head_c(data, pos) {
            Parsed::Done(_, p) => pos < p <= data.len(),
            _ => true,
        },
{
    lemma_entry_flags3_bounds(data, pos, t_flags());
    match entry_flags3(data, pos, t_flags()) {
        Parsed::Done(_, p1) => {
            lemma_entry_sint_bounds(data, p1, t_layer());
        },
        _ => {},
    }
}

/// All `TEXTURE:` lines that follow, stopping at the first line that is
/// not one.
pub open spec fn textures_at(data: Seq<u8>, pos: int) -> Parsed<Seq<Seq<u8>>>
    decreases data.len() - pos,
    via textures_at_decreases
{
    if pos < 0 || pos > data.len() {
        Parsed::Done(Seq::empty(), pos)
    } else {
        match entry_word(data, pos, t_texture_item()) {
            Parsed::Soft => Parsed::Done(Seq::empty(), pos),
            Parsed::Hard => Parsed::Hard,
            Parsed::Done(w, p) => match textures_at(data, p) {
                Parsed::Hard => Parsed::Hard,
                Parsed::Soft => Parsed::Soft,
                Parsed::Done(rest, p2) => Parsed::Done(seq![w] + rest, p2),
            },
        }
    }
}

#[via_fn]
proof fn textures_at_decreases(data: Seq<u8>, pos: int) {
    if 0 <= pos <= data.len() {
        lemma_entry_word_bounds(data, pos, t_texture_item());
    }
}

proof fn lemma_textures_at_bounds(data: Seq<u8>, pos: int)
    requires
        0 <= pos <= data.len(),
    ensures
        match textures_at(data, pos) {
            Parsed::Done(_, p) => pos <= p <= data.len(),
            _ => true,
        },
    decreases data.len() - pos,
{
    lemma_entry_word_bounds(data, pos, t_texture_item());
    match entry_word(data, pos, t_texture_item()) {
        Parsed::Done(_, p) => {
            lemma_textures_at_bounds(data, p);
        },
        _ => {},
    }
}

/// All sector blocks that follow, stopping at the first block that does
/// not open with a `SECTOR` line.
pub open spec fn sectors_at(data: Seq<u8>, pos: int) -> Parsed<Seq<SectorModel>>
    decreases data.len() - pos,
    via sectors_at_decreases
{
    if pos < 0 || pos > data.len() {
        Parsed::Done(Seq::empty(), pos)
    } else {
        match sector_at(data, pos) {
            Parsed::Soft => Parsed::Done(Seq::empty(), pos),
            Parsed::Hard => Parsed::Hard,
            Parsed::Done(s, p) => match sectors_at(data, p) {
                Parsed::Hard => Parsed::Hard,
                Parsed::Soft => Parsed::Soft,
                Parsed::Done(rest, p2) => Parsed::Done(seq![s] + rest, p2),
            },
        }
    }
}

#[via_fn]
proof fn sectors_at_decreases(data: Seq<u8>, pos: int) {
    if 0 <= pos <= data.len() {
        lemma_sector_at_bounds(data, pos);
    }
}

/// A whole level: the header lines, the texture list, and the sector
/// blocks. Input after the last well-formed sector block is ignored.
pub open spec fn lev_at(data: Seq<u8>) -> Parsed<LevModel> {
    match entry_rawline(data, 0, t_lev()) {
        Parsed::Soft => Parsed::Soft,
        Parsed::Hard => Parsed::Hard,
        Parsed::Done(_, p1) => match entry_rawline(data, p1, t_levelname()) {
            Parsed::Soft => Parsed::Soft,
            Parsed::Hard => Parsed::Hard,
            Parsed::Done(_, p2) => match entry_word(data, p2, t_palette()) {
                Parsed::Soft => Parsed::Soft,
                Parsed::Hard => Parsed::Hard,
                Parsed::Done(pal, p3) => match entry_rawline(data, p3, t_music()) {
                    Parsed::Soft => Parsed::Soft,
                    Parsed::Hard => Parsed::Hard,
                    Parsed::Done(_, p4) => match entry_decimal_pair(data, p4, t_parallax()) {
                        Parsed::Soft => Parsed::Soft,
                        Parsed::Hard => Parsed::Hard,
                        Parsed::Done(par, p5) => match entry_rawline(data, p5, t_textures()) {
                            Parsed::Soft => Parsed::Soft,
                            Parsed::Hard => Parsed::Hard,
                            Parsed::Done(_, p6) => match textures_at(data, p6) {
                                Parsed::Soft => Parsed::Soft,
                                Parsed::Hard => Parsed::Hard,
                                Parsed::Done(names, p7) => match entry_rawline(data, p7, t_numsectors()) {
                                    Parsed::Soft => Parsed::Soft,
                                    Parsed::Hard => Parsed::Hard,
                                    Parsed::Done(_, p8) => match sectors_at(data, p8) {
                                        Parsed::Soft => Parsed::Soft,
                                        Parsed::Hard => Parsed::Hard,
                                        Parsed::Done(sectors, p9) => Parsed::Done(
                                            LevModel {
                                                palette_name: pal,
                                                parallax: par,
                                                texture_names: names,
                                                sectors,
                                            },
                                            p9,
                                        ),
                                    },
                                },
                            },
                        },
                    },
                },
            },
        },
    }
}

/// Skips spaces and tabs.
fn skip_spaces_exec(data: &[u8], pos: usize) -> (r: usize)
    requires
        pos <= data@.len(),
    ensures
        r == skip_spaces(data@, pos as int),
        pos <= r <= data@.len(),
{
    let n = data.len();
    let mut i = pos;
    while i < n && (data[i] == 32 || data[i] == 9)
        invariant
            pos <= i <= n,
            n == data@.len(),
            skip_spaces(data@, pos as int) == skip_spaces(data@, i as int),
        decreases n - i,
    {
        i += 1;
    }
    i
}

/// Scans to the end of the current line's content.
fn line_content_end_exec(data: &[u8], pos: usize) -> (r: usize)
    requires
        pos <= data@.len(),
    ensures
        r == line_content_end(data@, pos as int),
        pos <= r <= data@.len(),
{
    let n = data.len();
    let mut i = pos;
    while i < n && data[i] != 13 && data[i] != 10
        invariant
            pos <= i <= n,
            n == data@.len(),
            line_content_end(data@, pos as int) == line_content_end(data@, i as int),
        decreases n - i,
    {
        i += 1;
    }
    i
}

/// Consumes a line ending at `pos`, if one stands there.
fn line_ending_exec(data: &[u8], pos: usize) -> (r: Option<usize>)
    requires
        pos <= data@.len(),
    ensures
        match r {
            Some(p) => line_ending_at(data@, pos as int) == Some(p as int) && p <= data@.len(),
            None => line_ending_at(data@, pos as int) is None,
        },
{
    let n = data.len();
    if pos < n && data[pos] == 10 {
        Some(pos + 1)
    } else if n - pos >= 2 && data[pos] == 13 && data[pos + 1] == 10 {
        Some(pos + 2)
    } else {
        None
    }
}

/// Consumes one comment-or-ending line.
fn eol_comment_exec(data: &[u8], pos: usize) -> (r: Option<usize>)
    requires
        pos <= data@.len(),
    ensures
        match r {
            Some(p) => eol_comment(data@, pos as int) == Some(p as int) && pos < p <= data@.len(),
            None => eol_comment(data@, pos as int) is None,
        },
{
    proof {
        lemma_eol_comment_bounds(data@, pos as int);
    }
    let p1 = skip_spaces_exec(data, pos);
    if p1 < data.len() && data[p1] == 35 {
        let p2 = line_content_end_exec(data, p1 + 1);
        line_ending_exec(data, p2)
    } else {
        line_ending_exec(data, pos)
    }
}

/// Consumes the end of a line: one or more (comment-bearing) line
/// endings, then the next line's indentation.
#[verifier::loop_isolation(false)]
fn eol_exec(data: &[u8], pos: usize) -> (r: Option<usize>)
    requires
        pos <= data@.len(),
    ensures
        match r {
            Some(p) => eol(data@, pos as int) == Some(p as int) && pos < p <= data@.len(),
            None => eol(data@, pos as int) is None,
        },
{
    proof {
        lemma_eol_bounds(data@, pos as int);
    }
    match eol_comment_exec(data, pos) {
        None => None,
        Some(first) => {
            let mut p = first;
            loop
                invariant
                    p <= data@.len(),
                    eol_many(data@, first as int) == eol_many(data@, p as int),
                decreases data@.len() - p,
            {
                proof {
                    lemma_eol_comment_bounds(data@, p as int);
                }
                match eol_comment_exec(data, p) {
                    Some(q) => {
                        p = q;
                    },
                    None => {
                        return Some(skip_spaces_exec(data, p));
                    },
                }
            }
        },
    }
}

/// Whether the bytes of `t` stand at `pos`.
fn tag_exec(data: &[u8], pos: usize, t: &[u8]) -> (r: bool)
    requires
        pos <= data@.len(),
    ensures
        r == tag_at(data@, pos as int, t@),
{
    let k = t.len();
    let n = data.len();
    if k > n - pos {
        proof {
            assert(!tag_at(data@, pos as int, t@));
        }
        return false;
    }
    let mut i: usize = 0;
    while i < k
        invariant
            i <= k,
            k == t@.len(),
            pos + k <= data@.len(),
            data@.len() <= usize::MAX,
            forall|j: int| 0 <= j < i ==> data@[pos + j] == t@[j],
        decreases k - i,
    {
        if data[pos + i] != t[i] {
            proof {
                assert(data@.subrange(pos as int, pos + t@.len())[i as int] != t@[i as int]);
            }
            return false;
        }
        i += 1;
    }
    proof {
        assert(data@.subrange(pos as int, pos + t@.len()) =~= t@);
    }
    true
}

/// Scans to the end of the digit run at `pos`.
fn digits_end_exec(data: &[u8], pos: usize) -> (r: usize)
    requires
        pos <= data@.len(),
    ensures
        r == digits_end(data@, pos as int),
        pos <= r <= data@.len(),
{
    let n = data.len();
    let mut i = pos;
    while i < n && 48 <= data[i] && data[i] <= 57
        invariant
            pos <= i <= n,
            n == data@.len(),
            digits_end(data@, pos as int) == digits_end(data@, i as int),
        decreases n - i,
    {
        i += 1;
    }
    i
}

/// Reads the digit run at `pos` as a number, refusing an empty run or a
/// value over `max` with a soft failure. Returns the value and the first
/// position after the digits.
#[verifier::loop_isolation(false)]
fn parse_digits(data: &[u8], pos: usize, max: u64) -> (r: Result<(u64, usize), PErr>)
    requires
        pos <= data@.len(),
        max >= 9,
    ensures
        match r {
            Ok((v, e)) => {
                &&& e == digits_end(data@, pos as int)
                &&& pos < e <= data@.len()
                &&& v as int == digits_value(data@, pos as int, e as int)
                &&& v <= max
            },
            Err(e) => {
                &&& e matches PErr::Soft
                &&& (digits_end(data@, pos as int) == pos || digits_value(
                    data@,
                    pos as int,
                    digits_end(data@, pos as int),
                ) > max)
            },
        },
{
    let e = digits_end_exec(data, pos);
    proof {
        lemma_digits_end_bounds(data@, pos as int);
    }
    if e == pos {
        return Err(PErr::Soft);
    }
    let mut acc: u64 = 0;
    let mut i = pos;
    while i < e
        invariant
            pos <= i <= e,
            acc as int == digits_value(data@, pos as int, i as int),
            acc <= max,
        decreases e - i,
    {
        let d = (data[i] - 48) as u64;
        let overflow = if d > max {
            true
        } else {
            acc > (max - d) / 10
        };
        if overflow {
            proof {
                if d <= max {
                    vstd::arithmetic::div_mod::lemma_fundamental_div_mod(
                        max as int - d as int,
                        10,
                    );
                }
                assert(digits_value(data@, pos as int, i + 1) > max);
                lemma_digits_value_grows(data@, pos as int, i + 1, e as int);
            }
            return Err(PErr::Soft);
        }
        proof {
            vstd::arithmetic::div_mod::lemma_fundamental_div_mod(max as int - d as int, 10);
        }
        acc = acc * 10 + d;
        i += 1;
    }
    Ok((acc, e))
}

/// An unsigned decimal number with trailing spaces, bounded by `max`.
fn parse_uint(data: &[u8], pos: usize, max: u64) -> (r: Result<(u64, usize), PErr>)
    requires
        pos <= data@.len(),
        max >= 9,
    ensures
        match r {
            Ok((v, p)) => {
                &&& uint_at(data@, pos as int, max as int) == Parsed::<int>::Done(
                    v as int,
                    p as int,
                )
                &&& p <= data@.len()
                &&& v <= max
            },
            Err(e) => {
                &&& e matches PErr::Soft
                &&& uint_at(data@, pos as int, max as int) is Soft
            },
        },
{
    match parse_digits(data, pos, max) {
        Ok((v, e)) => {
            let p = skip_spaces_exec(data, e);
            Ok((v, p))
        },
        Err(_) => Err(PErr::Soft),
    }
}

/// A signed decimal number in the 32-bit signed range, with trailing
/// spaces.
fn parse_sint(data: &[u8], pos: usize) -> (r: Result<(i32, usize), PErr>)
    requires
        pos <= data@.len(),
    ensures
        match r {
            Ok((v, p)) => {
                &&& sint_at(data@, pos as int) == Parsed::<int>::Done(v as int, p as int)
                &&& p <= data@.len()
            },
            Err(e) => {
                &&& e matches PErr::Soft
                &&& sint_at(data@, pos as int) is Soft
            },
        },
{
    let neg = pos < data.len() && data[pos] == 45;
    let p1 = if neg {
        pos + 1
    } else {
        pos
    };
    match parse_digits(data, p1, 0x8000_0000u64) {
        Ok((v, e)) => {
            if !neg && v > 0x7FFF_FFFFu64 {
                return Err(PErr::Soft);
            }
            let signed: i32 = if neg {
                if v == 0x8000_0000u64 {
                    i32::MIN
                } else {
                    -(v as i32)
                }
            } else {
                v as i32
            };
            let p = skip_spaces_exec(data, e);
            Ok((signed, p))
        },
        Err(_) => Err(PErr::Soft),
    }
}

/// A decimal number of the form `-?digits.digits`, with trailing spaces.
fn parse_decimal(data: &[u8], pos: usize) -> (r: Result<(Decimal, usize), PErr>)
    requires
        pos <= data@.len(),
    ensures
        match r {
            Ok((v, p)) => {
                &&& decimal_at(data@, pos as int) == Parsed::<Decimal>::Done(v, p as int)
                &&& p <= data@.len()
            },
            Err(e) => {
                &&& e matches PErr::Soft
                &&& decimal_at(data@, pos as int) is Soft
            },
        },
{
    let neg = pos < data.len() && data[pos] == 45;
    let p1 = if neg {
        pos + 1
    } else {
        pos
    };
    let whole = match parse_digits(data, p1, u32::MAX as u64) {
        Ok(w) => w,
        Err(_) => {
            return Err(PErr::Soft);
        },
    };
    let e1 = whole.1;
    if !(e1 < data.len() && data[e1] == 46) {
        return Err(PErr::Soft);
    }
    let f1 = e1 + 1;
    let frac = match parse_digits(data, f1, u32::MAX as u64) {
        Ok(f) => f,
        Err(_) => {
            return Err(PErr::Soft);
        },
    };
    let e2 = frac.1;
    if e2 - f1 > 255 {
        return Err(PErr::Soft);
    }
    let p = skip_spaces_exec(data, e2);
    Ok(
        (
            Decimal {
                neg,
                whole: whole.0 as u32,
                frac: frac.0 as u32,
                frac_digits: (e2 - f1) as u8,
            },
            p,
        ),
    )
}

/// Scans to the end of the word at `pos`.
fn word_end_exec(data: &[u8], pos: usize) -> (r: usize)
    requires
        pos <= data@.len(),
    ensures
        r == word_end(data@, pos as int),
        pos <= r <= data@.len(),
{
    let n = data.len();
    let mut i = pos;
    while i < n && data[i] != 32 && data[i] != 35 && data[i] != 13 && data[i] != 10
        invariant
            pos <= i <= n,
            n == data@.len(),
            word_end(data@, pos as int) == word_end(data@, i as int),
        decreases n - i,
    {
        i += 1;
    }
    i
}

/// A word of one or more bytes, copied out of the input.
fn parse_word(data: &[u8], pos: usize) -> (r: Result<(Vec<u8>, usize), PErr>)
    requires
        pos <= data@.len(),
    ensures
        match r {
            Ok((w, p)) => {
                &&& word_at(data@, pos as int) == Parsed::<Seq<u8>>::Done(w@, p as int)
                &&& p <= data@.len()
            },
            Err(e) => {
                &&& e matches PErr::Soft
                &&& word_at(data@, pos as int) is Soft
            },
        },
{
    let e = word_end_exec(data, pos);
    if e == pos {
        return Err(PErr::Soft);
    }
    let mut w: Vec<u8> = Vec::new();
    let mut i = pos;
    while i < e
        invariant
            pos <= i <= e <= data@.len(),
            w@ == data@.subrange(pos as int, i as int),
        decreases e - i,
    {
        let b = data[i];
        w.push(b);
        proof {
            assert(w@ =~= data@.subrange(pos as int, i + 1));
        }
        i += 1;
    }
    Ok((w, e))
}

/// An ignored rest-of-line value of one or more bytes.
fn parse_rawline(data: &[u8], pos: usize) -> (r: Result<usize, PErr>)
    requires
        pos <= data@.len(),
    ensures
        match r {
            Ok(p) => {
                &&& rawline_at(data@, pos as int) == Parsed::<int>::Done(p as int, p as int)
                &&& p <= data@.len()
            },
            Err(e) => {
                &&& e matches PErr::Soft
                &&& rawline_at(data@, pos as int) is Soft
            },
        },
{
    let n = data.len();
    let mut i = pos;
    while i < n && data[i] != 35 && data[i] != 13 && data[i] != 10
        invariant
            pos <= i <= n,
            n == data@.len(),
            raw_end(data@, pos as int) == raw_end(data@, i as int),
        decreases n - i,
    {
        i += 1;
    }
    if i == pos {
        Err(PErr::Soft)
    } else {
        Ok(i)
    }
}

/// Consumes a tag, its mandatory following space, and any further
/// spaces; `None` when the tag is absent.
fn after_tag_exec(data: &[u8], pos: usize, t: &[u8]) -> (r: Option<usize>)
    requires
        pos <= data@.len(),
    ensures
        match r {
            Some(p) => after_tag(data@, pos as int, t@) == Some(p as int) && p <= data@.len(),
            None => after_tag(data@, pos as int, t@) is None,
        },
{
    let n = data.len();
    if !tag_exec(data, pos, t) {
        return None;
    }
    proof {
        assert(pos + t@.len() <= n);
    }
    let p1 = pos + t.len();
    if p1 < n && (data[p1] == 32 || data[p1] == 9) {
        Some(skip_spaces_exec(data, p1))
    } else {
        None
    }
}

/// The bytes of the tag `LEV`.
fn tb_lev() -> (r: [u8; 3])
    ensures
        r@ == t_lev(),
{
    let r = [76u8, 69u8, 86u8];
    proof {
        assert(r@ =~= t_lev());
    }
    r
}

/// The bytes of the tag `LEVELNAME`.
fn tb_levelname() -> (r: [u8; 9])
    ensures
        r@ == t_levelname(),
{
    let r = [76u8, 69u8, 86u8, 69u8, 76u8, 78u8, 65u8, 77u8, 69u8];
    proof {
        assert(r@ =~= t_levelname());
    }
    r
}

/// The bytes of the tag `PALETTE`.
fn tb_palette() -> (r: [u8; 7])
    ensures
        r@ == t_palette(),
{
    let r = [80u8, 65u8, 76u8, 69u8, 84u8, 84u8, 69u8];
    proof {
        assert(r@ =~= t_palette());
    }
    r
}

/// The bytes of the tag `MUSIC`.
fn tb_music() -> (r: [u8; 5])
    ensures
        r@ == t_music(),
{
    let r = [77u8, 85u8, 83u8, 73u8, 67u8];
    proof {
        assert(r@ =~= t_music());
    }
    r
}

/// The bytes of the tag `PARALLAX`.
fn tb_parallax() -> (r: [u8; 8])
    ensures
        r@ == t_parallax(),
{
    let r = [80u8, 65u8, 82u8, 65u8, 76u8, 76u8, 65u8, 88u8];
    proof {
        assert(r@ =~= t_parallax());
    }
    r
}

/// The bytes of the tag `TEXTURES`.
fn tb_textures() -> (r: [u8; 8])
    ensures
        r@ == t_textures(),
{
    let r = [84u8, 69u8, 88u8, 84u8, 85u8, 82u8, 69u8, 83u8];
    proof {
        assert(r@ =~= t_textures());
    }
    r
}

/// The bytes of the tag `TEXTURE:`.
fn tb_texture_item() -> (r: [u8; 8])
    ensures
        r@ == t_texture_item(),
{
    let r = [84u8, 69u8, 88u8, 84u8, 85u8, 82u8, 69u8, 58u8];
    proof {
        assert(r@ =~= t_texture_item());
    }
    r
}

/// The bytes of the tag `NUMSECTORS`.
fn tb_numsectors() -> (r: [u8; 10])
    ensures
        r@ == t_numsectors(),
{
    let r = [78u8, 85u8, 77u8, 83u8, 69u8, 67u8, 84u8, 79u8, 82u8, 83u8];
    proof {
        assert(r@ =~= t_numsectors());
    }
    r
}

/// The bytes of the tag `SECTOR`.
fn tb_sector() -> (r: [u8; 6])
    ensures
        r@ == t_sector(),
{
    let r = [83u8, 69u8, 67u8, 84u8, 79u8, 82u8];
    proof {
        assert(r@ =~= t_sector());
    }
    r
}

/// The bytes of the tag `NAME`.
fn tb_name() -> (r: [u8; 4])
    ensures
        r@ == t_name(),
{
    let r = [78u8, 65u8, 77u8, 69u8];
    proof {
        assert(r@ =~= t_name());
    }
    r
}

/// The bytes of the tag `AMBIENT`.
fn tb_ambient() -> (r: [u8; 7])
    ensures
        r@ == t_ambient(),
{
    let r = [65u8, 77u8, 66u8, 73u8, 69u8, 78u8, 84u8];
    proof {
        assert(r@ =~= t_ambient());
    }
    r
}

/// The bytes of the tag `FLOOR TEXTURE`.
fn tb_floor_texture() -> (r: [u8; 13])
    ensures
        r@ == t_floor_texture(),
{
    let r = [70u8, 76u8, 79u8, 79u8, 82u8, 32u8, 84u8, 69u8, 88u8, 84u8, 85u8, 82u8, 69u8];
    proof {
        assert(r@ =~= t_floor_texture());
    }
    r
}

/// The bytes of the tag `FLOOR ALTITUDE`.
fn tb_floor_altitude() -> (r: [u8; 14])
    ensures
        r@ == t_floor_altitude(),
{
    let r = [70u8, 76u8, 79u8, 79u8, 82u8, 32u8, 65u8, 76u8, 84u8, 73u8, 84u8, 85u8, 68u8, 69u8];
    proof {
        assert(r@ =~= t_floor_altitude());
    }
    r
}

/// The bytes of the tag `CEILING TEXTURE`.
fn tb_ceiling_texture() -> (r: [u8; 15])
    ensures
        r@ == t_ceiling_texture(),
{
    let r = [67u8, 69u8, 73u8, 76u8, 73u8, 78u8, 71u8, 32u8, 84u8, 69u8, 88u8, 84u8, 85u8, 82u8, 69u8];
    proof {
        assert(r@ =~= t_ceiling_texture());
    }
    r
}

/// The bytes of the tag `CEILING ALTITUDE`.
fn tb_ceiling_altitude() -> (r: [u8; 16])
    ensures
        r@ == t_ceiling_altitude(),
{
    let r = [67u8, 69u8, 73u8, 76u8, 73u8, 78u8, 71u8, 32u8, 65u8, 76u8, 84u8, 73u8, 84u8, 85u8, 68u8, 69u8];
    proof {
        assert(r@ =~= t_ceiling_altitude());
    }
    r
}

/// The bytes of the tag `SECOND ALTITUDE`.
fn tb_second_altitude() -> (r: [u8; 15])
    ensures
        r@ == t_second_altitude(),
{
    let r = [83u8, 69u8, 67u8, 79u8, 78u8, 68u8, 32u8, 65u8, 76u8, 84u8, 73u8, 84u8, 85u8, 68u8, 69u8];
    proof {
        assert(r@ =~= t_second_altitude());
    }
    r
}

/// The bytes of the tag `FLAGS`.
fn tb_flags() -> (r: [u8; 5])
    ensures
        r@ == t_flags(),
{
    let r = [70u8, 76u8, 65u8, 71u8, 83u8];
    proof {
        assert(r@ =~= t_flags());
    }
    r
}

/// The bytes of the tag `LAYER`.
fn tb_layer() -> (r: [u8; 5])
    ensures
        r@ == t_layer(),
{
    let r = [76u8, 65u8, 89u8, 69u8, 82u8];
    proof {
        assert(r@ =~= t_layer());
    }
    r
}

/// The bytes of the tag `VERTICES`.
fn tb_vertices() -> (r: [u8; 8])
    ensures
        r@ == t_vertices(),
{
    let r = [86u8, 69u8, 82u8, 84u8, 73u8, 67u8, 69u8, 83u8];
    proof {
        assert(r@ =~= t_vertices());
    }
    r
}

/// The bytes of the tag `WALLS`.
fn tb_walls() -> (r: [u8; 5])
    ensures
        r@ == t_walls(),
{
    let r = [87u8, 65u8, 76u8, 76u8, 83u8];
    proof {
        assert(r@ =~= t_walls());
    }
    r
}

/// The bytes of the tag `X:`.
fn tb_x() -> (r: [u8; 2])
    ensures
        r@ == t_x(),
{
    let r = [88u8, 58u8];
    proof {
        assert(r@ =~= t_x());
    }
    r
}

/// The bytes of the tag `Z:`.
fn tb_z() -> (r: [u8; 2])
    ensures
        r@ == t_z(),
{
    let r = [90u8, 58u8];
    proof {
        assert(r@ =~= t_z());
    }
    r
}

/// The bytes of the tag `WALL`.
fn tb_wall() -> (r: [u8; 4])
    ensures
        r@ == t_wall(),
{
    let r = [87u8, 65u8, 76u8, 76u8];
    proof {
        assert(r@ =~= t_wall());
    }
    r
}

/// The bytes of the tag `LEFT:`.
fn tb_left() -> (r: [u8; 5])
    ensures
        r@ == t_left(),
{
    let r = [76u8, 69u8, 70u8, 84u8, 58u8];
    proof {
        assert(r@ =~= t_left());
    }
    r
}

/// The bytes of the tag `RIGHT:`.
fn tb_right() -> (r: [u8; 6])
    ensures
        r@ == t_right(),
{
    let r = [82u8, 73u8, 71u8, 72u8, 84u8, 58u8];
    proof {
        assert(r@ =~= t_right());
    }
    r
}

/// The bytes of the tag `MID:`.
fn tb_mid() -> (r: [u8; 4])
    ensures
        r@ == t_mid(),
{
    let r = [77u8, 73u8, 68u8, 58u8];
    proof {
        assert(r@ =~= t_mid());
    }
    r
}

/// The bytes of the tag `TOP:`.
fn tb_top() -> (r: [u8; 4])
    ensures
        r@ == t_top(),
{
    let r = [84u8, 79u8, 80u8, 58u8];
    proof {
        assert(r@ =~= t_top());
    }
    r
}

/// The bytes of the tag `BOT:`.
fn tb_bot() -> (r: [u8; 4])
    ensures
        r@ == t_bot(),
{
    let r = [66u8, 79u8, 84u8, 58u8];
    proof {
        assert(r@ =~= t_bot());
    }
    r
}

/// The bytes of the tag `SIGN:`.
fn tb_sign() -> (r: [u8; 5])
    ensures
        r@ == t_sign(),
{
    let r = [83u8, 73u8, 71u8, 78u8, 58u8];
    proof {
        assert(r@ =~= t_sign());
    }
    r
}

/// The bytes of the tag `ADJOIN:`.
fn tb_adjoin() -> (r: [u8; 7])
    ensures
        r@ == t_adjoin(),
{
    let r = [65u8, 68u8, 74u8, 79u8, 73u8, 78u8, 58u8];
    proof {
        assert(r@ =~= t_adjoin());
    }
    r
}

/// The bytes of the tag `MIRROR:`.
fn tb_mirror() -> (r: [u8; 7])
    ensures
        r@ == t_mirror(),
{
    let r = [77u8, 73u8, 82u8, 82u8, 79u8, 82u8, 58u8];
    proof {
        assert(r@ =~= t_mirror());
    }
    r
}

/// The bytes of the tag `WALK:`.
fn tb_walk() -> (r: [u8; 5])
    ensures
        r@ == t_walk(),
{
    let r = [87u8, 65u8, 76u8, 75u8, 58u8];
    proof {
        assert(r@ =~= t_walk());
    }
    r
}

/// The bytes of the tag `FLAGS:`.
fn tb_wflags() -> (r: [u8; 6])
    ensures
        r@ == t_wflags(),
{
    let r = [70u8, 76u8, 65u8, 71u8, 83u8, 58u8];
    proof {
        assert(r@ =~= t_wflags());
    }
    r
}

/// The bytes of the tag `LIGHT:`.
fn tb_light() -> (r: [u8; 6])
    ensures
        r@ == t_light(),
{
    let r = [76u8, 73u8, 71u8, 72u8, 84u8, 58u8];
    proof {
        assert(r@ =~= t_light());
    }
    r
}


/// Closes an entry line: trailing spaces, then at least one line ending.
fn close_line_exec(data: &[u8], pos: usize) -> (r: Option<usize>)
    requires
        pos <= data@.len(),
    ensures
        match r {
            Some(p) => eol(data@, skip_spaces(data@, pos as int)) == Some(p as int) && p
                <= data@.len(),
            None => eol(data@, skip_spaces(data@, pos as int)) is None,
        },
{
    let p1 = skip_spaces_exec(data, pos);
    eol_exec(data, p1)
}

/// An optional index value: `-1` or an unsigned number.
fn parse_opt_uint(data: &[u8], pos: usize) -> (r: Result<(Option<usize>, usize), PErr>)
    requires
        pos <= data@.len(),
    ensures
        match r {
            Ok((v, p)) => {
                &&& opt_uint_at(data@, pos as int) == Parsed::<Option<int>>::Done(
                    match v {
                        Some(i) => Some(i as int),
                        None => None,
                    },
                    p as int,
                )
                &&& p <= data@.len()
            },
            Err(e) => {
                &&& e matches PErr::Soft
                &&& opt_uint_at(data@, pos as int) is Soft
            },
        },
{
    let n = data.len();
    let minus_one = [45u8, 49u8];
    proof {
        assert(minus_one@ =~= seq![45u8, 49u8]);
    }
    if tag_exec(data, pos, minus_one.as_slice()) {
        proof {
            assert(pos + 2 <= n);
        }
        let p = skip_spaces_exec(data, pos + 2);
        Ok((None, p))
    } else {
        match parse_uint(data, pos, usize::MAX as u64) {
            Ok((v, p)) => Ok((Some(v as usize), p)),
            Err(_) => Err(PErr::Soft),
        }
    }
}

/// A texture reference, with or without the legacy flag integer.
fn parse_texture(data: &[u8], pos: usize, flagged: bool) -> (r: Result<(Texture, usize), PErr>)
    requires
        pos <= data@.len(),
    ensures
        match r {
            Ok((v, p)) => {
                &&& (if flagged {
                    texture_flag_at(data@, pos as int)
                } else {
                    texture_noflag_at(data@, pos as int)
                }) == Parsed::<Texture>::Done(v, p as int)
                &&& p <= data@.len()
            },
            Err(e) => {
                &&& e matches PErr::Soft
                &&& (if flagged {
                    texture_flag_at(data@, pos as int)
                } else {
                    texture_noflag_at(data@, pos as int)
                }) is Soft
            },
        },
{
    let (index, p1) = match parse_opt_uint(data, pos) {
        Ok(v) => v,
        Err(_) => {
            return Err(PErr::Soft);
        },
    };
    let (x, p2) = match parse_decimal(data, p1) {
        Ok(v) => v,
        Err(_) => {
            return Err(PErr::Soft);
        },
    };
    let (y, p3) = match parse_decimal(data, p2) {
        Ok(v) => v,
        Err(_) => {
            return Err(PErr::Soft);
        },
    };
    let tex = Texture { index, offset: Vec2 { x, y } };
    if flagged {
        match parse_uint(data, p3, u32::MAX as u64) {
            Ok((_, p4)) => Ok((tex, p4)),
            Err(_) => Err(PErr::Soft),
        }
    } else {
        Ok((tex, p3))
    }
}

fn pe_uint(data: &[u8], pos: usize, t: &[u8], max: u64) -> (r: Result<(u64, usize), PErr>)
    requires
        pos <= data@.len(),
        max >= 9,
    ensures
        match r {
            Ok((v, p)) => {
                &&& entry_uint(data@, pos as int, t@, max as int) == Parsed::Done(v as int, p as int)
                &&& p <= data@.len()
            },
            Err(e) => match e {
                PErr::Soft => entry_uint(data@, pos as int, t@, max as int) is Soft,
                PErr::Hard => entry_uint(data@, pos as int, t@, max as int) is Hard,
            },
        },
{
    let q = match after_tag_exec(data, pos, t) {
        Some(q) => q,
        None => {
            return Err(PErr::Soft);
        },
    };
    let (v, p1) = match parse_uint(data, q, max) {
        Ok(vv) => vv,
        Err(_) => {
            return Err(PErr::Hard);
        },
    };
    match close_line_exec(data, p1) {
        Some(p) => Ok((v, p)),
        None => Err(PErr::Soft),
    }
}

fn pe_sint(data: &[u8], pos: usize, t: &[u8]) -> (r: Result<(i32, usize), PErr>)
    requires
        pos <= data@.len(),
    ensures
        match r {
            Ok((v, p)) => {
                &&& entry_sint(data@, pos as int, t@) == Parsed::Done(v as int, p as int)
                &&& p <= data@.len()
            },
            Err(e) => match e {
                PErr::Soft => entry_sint(data@, pos as int, t@) is Soft,
                PErr::Hard => entry_sint(data@, pos as int, t@) is Hard,
            },
        },
{
    let q = match after_tag_exec(data, pos, t) {
        Some(q) => q,
        None => {
            return Err(PErr::Soft);
        },
    };
    let (v, p1) = match parse_sint(data, q) {
        Ok(vv) => vv,
        Err(_) => {
            return Err(PErr::Hard);
        },
    };
    match close_line_exec(data, p1) {
        Some(p) => Ok((v, p)),
        None => Err(PErr::Soft),
    }
}

fn pe_word(data: &[u8], pos: usize, t: &[u8]) -> (r: Result<(Vec<u8>, usize), PErr>)
    requires
        pos <= data@.len(),
    ensures
        match r {
            Ok((v, p)) => {
                &&& entry_word(data@, pos as int, t@) == Parsed::Done(v@, p as int)
                &&& p <= data@.len()
            },
            Err(e) => match e {
                PErr::Soft => entry_word(data@, pos as int, t@) is Soft,
                PErr::Hard => entry_word(data@, pos as int, t@) is Hard,
            },
        },
{
    let q = match after_tag_exec(data, pos, t) {
        Some(q) => q,
        None => {
            return Err(PErr::Soft);
        },
    };
    let (v, p1) = match parse_word(data, q) {
        Ok(vv) => vv,
        Err(_) => {
            return Err(PErr::Hard);
        },
    };
    match close_line_exec(data, p1) {
        Some(p) => Ok((v, p)),
        None => Err(PErr::Soft),
    }
}

fn pe_decimal(data: &[u8], pos: usize, t: &[u8]) -> (r: Result<(Decimal, usize), PErr>)
    requires
        pos <= data@.len(),
    ensures
        match r {
            Ok((v, p)) => {
                &&& entry_decimal(data@, pos as int, t@) == Parsed::Done(v, p as int)
                &&& p <= data@.len()
            },
            Err(e) => match e {
                PErr::Soft => entry_decimal(data@, pos as int, t@) is Soft,
                PErr::Hard => entry_decimal(data@, pos as int, t@) is Hard,
            },
        },
{
    let q = match after_tag_exec(data, pos, t) {
        Some(q) => q,
        None => {
            return Err(PErr::Soft);
        },
    };
    let (v, p1) = match parse_decimal(data, q) {
        Ok(vv) => vv,
        Err(_) => {
            return Err(PErr::Hard);
        },
    };
    match close_line_exec(data, p1) {
        Some(p) => Ok((v, p)),
        None => Err(PErr::Soft),
    }
}

fn pe_texture(data: &[u8], pos: usize, t: &[u8]) -> (r: Result<(Texture, usize), PErr>)
    requires
        pos <= data@.len(),
    ensures
        match r {
            Ok((v, p)) => {
                &&& entry_texture(data@, pos as int, t@) == Parsed::Done(v, p as int)
                &&& p <= data@.len()
            },
            Err(e) => match e {
                PErr::Soft => entry_texture(data@, pos as int, t@) is Soft,
                PErr::Hard => entry_texture(data@, pos as int, t@) is Hard,
            },
        },
{
    let q = match after_tag_exec(data, pos, t) {
        Some(q) => q,
        None => {
            return Err(PErr::Soft);
        },
    };
    let (v, p1) = match parse_texture(data, q, true) {
        Ok(vv) => vv,
        Err(_) => {
            return Err(PErr::Hard);
        },
    };
    match close_line_exec(data, p1) {
        Some(p) => Ok((v, p)),
        None => Err(PErr::Soft),
    }
}

fn pe_rawline(data: &[u8], pos: usize, t: &[u8]) -> (r: Result<usize, PErr>)
    requires
        pos <= data@.len(),
    ensures
        match r {
            Ok(p) => entry_rawline(data@, pos as int, t@) is Done && p <= data@.len() && (match entry_rawline(
                data@,
                pos as int,
                t@,
            ) {
                Parsed::Done(_, pp) => pp == p as int,
                _ => false,
            }),
            Err(e) => match e {
                PErr::Soft => entry_rawline(data@, pos as int, t@) is Soft,
                PErr::Hard => entry_rawline(data@, pos as int, t@) is Hard,
            },
        },
{
    let q = match after_tag_exec(data, pos, t) {
        Some(q) => q,
        None => {
            return Err(PErr::Soft);
        },
    };
    let p1 = match parse_rawline(data, q) {
        Ok(v) => v,
        Err(_) => {
            return Err(PErr::Hard);
        },
    };
    match close_line_exec(data, p1) {
        Some(p) => Ok(p),
        None => Err(PErr::Soft),
    }
}

fn pe_opt_word(data: &[u8], pos: usize, t: &[u8]) -> (r: Result<(Option<Vec<u8>>, usize), PErr>)
    requires
        pos <= data@.len(),
    ensures
        match r {
            Ok((v, p)) => {
                &&& entry_opt_word(data@, pos as int, t@) == Parsed::<Option<Seq<u8>>>::Done(
                    match v {
                        Some(ref w) => Some(w@),
                        None => None,
                    },
                    p as int,
                )
                &&& p <= data@.len()
            },
            Err(e) => match e {
                PErr::Soft => entry_opt_word(data@, pos as int, t@) is Soft,
                PErr::Hard => entry_opt_word(data@, pos as int, t@) is Hard,
            },
        },
{
    let n = data.len();
    if !tag_exec(data, pos, t) {
        return Err(PErr::Soft);
    }
    proof {
        assert(pos + t@.len() <= n);
    }
    let p1 = pos + t.len();
    if p1 < n && (data[p1] == 32 || data[p1] == 9) {
        let q = skip_spaces_exec(data, p1);
        let (w, p2) = match parse_word(data, q) {
            Ok(v) => v,
            Err(_) => {
                return Err(PErr::Hard);
            },
        };
        proof {
            lemma_skip_spaces_idempotent(data@, p2 as int);
        }
        match close_line_exec(data, p2) {
            Some(p) => Ok((Some(w), p)),
            None => Err(PErr::Soft),
        }
    } else {
        match close_line_exec(data, p1) {
            Some(p) => Ok((None, p)),
            None => Err(PErr::Soft),
        }
    }
}

fn pe_decimal_pair(data: &[u8], pos: usize, t: &[u8]) -> (r: Result<(Vec2<Decimal>, usize), PErr>)
    requires
        pos <= data@.len(),
    ensures
        match r {
            Ok((v, p)) => {
                &&& entry_decimal_pair(data@, pos as int, t@) == Parsed::<Vec2<Decimal>>::Done(
                    v,
                    p as int,
                )
                &&& p <= data@.len()
            },
            Err(e) => match e {
                PErr::Soft => entry_decimal_pair(data@, pos as int, t@) is Soft,
                PErr::Hard => entry_decimal_pair(data@, pos as int, t@) is Hard,
            },
        },
{
    let q = match after_tag_exec(data, pos, t) {
        Some(q) => q,
        None => {
            return Err(PErr::Soft);
        },
    };
    let (x, p1) = match parse_decimal(data, q) {
        Ok(v) => v,
        Err(_) => {
            return Err(PErr::Hard);
        },
    };
    let (y, p2) = match parse_decimal(data, p1) {
        Ok(v) => v,
        Err(_) => {
            return Err(PErr::Hard);
        },
    };
    match close_line_exec(data, p2) {
        Some(p) => Ok((Vec2 { x, y }, p)),
        None => Err(PErr::Soft),
    }
}

fn pe_flags3(data: &[u8], pos: usize, t: &[u8]) -> (r: Result<((u32, u32, u32), usize), PErr>)
    requires
        pos <= data@.len(),
    ensures
        match r {
            Ok((v, p)) => {
                &&& entry_flags3(data@, pos as int, t@) == Parsed::<(u32, u32, u32)>::Done(
                    v,
                    p as int,
                )
                &&& p <= data@.len()
            },
            Err(e) => match e {
                PErr::Soft => entry_flags3(data@, pos as int, t@) is Soft,
                PErr::Hard => entry_flags3(data@, pos as int, t@) is Hard,
            },
        },
{
    let q = match after_tag_exec(data, pos, t) {
        Some(q) => q,
        None => {
            return Err(PErr::Soft);
        },
    };
    let (a, p1) = match parse_uint(data, q, u32::MAX as u64) {
        Ok(v) => v,
        Err(_) => {
            return Err(PErr::Hard);
        },
    };
    let (b, p2) = match parse_uint(data, p1, u32::MAX as u64) {
        Ok(v) => v,
        Err(_) => {
            return Err(PErr::Hard);
        },
    };
    let (c, p3) = match parse_uint(data, p2, u32::MAX as u64) {
        Ok(v) => v,
        Err(_) => {
            return Err(PErr::Hard);
        },
    };
    match close_line_exec(data, p3) {
        Some(p) => Ok(((a as u32, b as u32, c as u32), p)),
        None => Err(PErr::Soft),
    }
}

fn pi_uint(data: &[u8], pos: usize, t: &[u8], max: u64) -> (r: Result<(u64, usize), PErr>)
    requires
        pos <= data@.len(),
        max >= 9,
    ensures
        match r {
            Ok((v, p)) => {
                &&& inline_uint(data@, pos as int, t@, max as int) == Parsed::Done(v as int, p as int)
                &&& p <= data@.len()
            },
            Err(e) => match e {
                PErr::Soft => inline_uint(data@, pos as int, t@, max as int) is Soft,
                PErr::Hard => inline_uint(data@, pos as int, t@, max as int) is Hard,
            },
        },
{
    let q = match after_tag_exec(data, pos, t) {
        Some(q) => q,
        None => {
            return Err(PErr::Soft);
        },
    };
    match parse_uint(data, q, max) {
        Ok((v, p1)) => {
            let p = skip_spaces_exec(data, p1);
            Ok((v, p))
        },
        Err(_) => Err(PErr::Hard),
    }
}

fn pi_decimal(data: &[u8], pos: usize, t: &[u8]) -> (r: Result<(Decimal, usize), PErr>)
    requires
        pos <= data@.len(),
    ensures
        match r {
            Ok((v, p)) => {
                &&& inline_decimal(data@, pos as int, t@) == Parsed::Done(v, p as int)
                &&& p <= data@.len()
            },
            Err(e) => match e {
                PErr::Soft => inline_decimal(data@, pos as int, t@) is Soft,
                PErr::Hard => inline_decimal(data@, pos as int, t@) is Hard,
            },
        },
{
    let q = match after_tag_exec(data, pos, t) {
        Some(q) => q,
        None => {
            return Err(PErr::Soft);
        },
    };
    match parse_decimal(data, q) {
        Ok((v, p1)) => {
            let p = skip_spaces_exec(data, p1);
            Ok((v, p))
        },
        Err(_) => Err(PErr::Hard),
    }
}

fn pi_opt_uint(data: &[u8], pos: usize, t: &[u8]) -> (r: Result<(Option<usize>, usize), PErr>)
    requires
        pos <= data@.len(),
    ensures
        match r {
            Ok((v, p)) => {
                &&& inline_opt_uint(data@, pos as int, t@) == Parsed::<Option<int>>::Done(
                    match v {
                        Some(i) => Some(i as int),
                        None => None,
                    },
                    p as int,
                )
                &&& p <= data@.len()
            },
            Err(e) => match e {
                PErr::Soft => inline_opt_uint(data@, pos as int, t@) is Soft,
                PErr::Hard => inline_opt_uint(data@, pos as int, t@) is Hard,
            },
        },
{
    let q = match after_tag_exec(data, pos, t) {
        Some(q) => q,
        None => {
            return Err(PErr::Soft);
        },
    };
    match parse_opt_uint(data, q) {
        Ok((v, p1)) => {
            let p = skip_spaces_exec(data, p1);
            Ok((v, p))
        },
        Err(_) => Err(PErr::Hard),
    }
}

fn pi_texture(data: &[u8], pos: usize, t: &[u8], flagged: bool) -> (r: Result<
    (Texture, usize),
    PErr,
>)
    requires
        pos <= data@.len(),
    ensures
        match r {
            Ok((v, p)) => {
                &&& inline_texture(data@, pos as int, t@, flagged) == Parsed::<Texture>::Done(
                    v,
                    p as int,
                )
                &&& p <= data@.len()
            },
            Err(e) => match e {
                PErr::Soft => inline_texture(data@, pos as int, t@, flagged) is Soft,
                PErr::Hard => inline_texture(data@, pos as int, t@, flagged) is Hard,
            },
        },
{
    let q = match after_tag_exec(data, pos, t) {
        Some(q) => q,
        None => {
            return Err(PErr::Soft);
        },
    };
    match parse_texture(data, q, flagged) {
        Ok((v, p1)) => {
            let p = skip_spaces_exec(data, p1);
            Ok((v, p))
        },
        Err(_) => Err(PErr::Hard),
    }
}

fn pi_flags3(data: &[u8], pos: usize, t: &[u8]) -> (r: Result<((u32, u32, u32), usize), PErr>)
    requires
        pos <= data@.len(),
    ensures
        match r {
            Ok((v, p)) => {
                &&& inline_flags3(data@, pos as int, t@) == Parsed::<(u32, u32, u32)>::Done(
                    v,
                    p as int,
                )
                &&& p <= data@.len()
            },
            Err(e) => match e {
                PErr::Soft => inline_flags3(data@, pos as int, t@) is Soft,
                PErr::Hard => inline_flags3(data@, pos as int, t@) is Hard,
            },
        },
{
    let q = match after_tag_exec(data, pos, t) {
        Some(q) => q,
        None => {
            return Err(PErr::Soft);
        },
    };
    let (a, p1) = match parse_uint(data, q, u32::MAX as u64) {
        Ok(v) => v,
        Err(_) => {
            return Err(PErr::Hard);
        },
    };
    let (b, p2) = match parse_uint(data, p1, u32::MAX as u64) {
        Ok(v) => v,
        Err(_) => {
            return Err(PErr::Hard);
        },
    };
    let (c, p3) = match parse_uint(data, p2, u32::MAX as u64) {
        Ok(v) => v,
        Err(_) => {
            return Err(PErr::Hard);
        },
    };
    let p = skip_spaces_exec(data, p3);
    Ok(((a as u32, b as u32, c as u32), p))
}


/// One wall's eleven `TAG: value` fields and the end of its line.
#[verifier::rlimit(30)]
fn parse_wall(data: &[u8], pos: usize) -> (r: Result<(Wall, usize), PErr>)
    requires
        pos <= data@.len(),
    ensures
        match r {
            Ok((w, p)) => {
                &&& wall_at(data@, pos as int) == Parsed::<Wall>::Done(w, p as int)
                &&& p <= data@.len()
            },
            Err(e) => match e {
                PErr::Soft => wall_at(data@, pos as int) is Soft,
                PErr::Hard => wall_at(data@, pos as int) is Hard,
            },
        },
{
    let t_l = tb_left();
    let (lv, p1) = match pi_uint(data, pos, t_l.as_slice(), usize::MAX as u64) {
        Ok(v) => v,
        Err(e) => {
            return Err(e);
        },
    };
    let t_r = tb_right();
    let (rv, p2) = match pi_uint(data, p1, t_r.as_slice(), usize::MAX as u64) {
        Ok(v) => v,
        Err(e) => {
            return Err(e);
        },
    };
    let t_m = tb_mid();
    let (mid, p3) = match pi_texture(data, p2, t_m.as_slice(), true) {
        Ok(v) => v,
        Err(e) => {
            return Err(e);
        },
    };
    let t_t = tb_top();
    let (top, p4) = match pi_texture(data, p3, t_t.as_slice(), true) {
        Ok(v) => v,
        Err(e) => {
            return Err(e);
        },
    };
    let t_b = tb_bot();
    let (bot, p5) = match pi_texture(data, p4, t_b.as_slice(), true) {
        Ok(v) => v,
        Err(e) => {
            return Err(e);
        },
    };
    let t_s = tb_sign();
    let (sign, p6) = match pi_texture(data, p5, t_s.as_slice(), false) {
        Ok(v) => v,
        Err(e) => {
            return Err(e);
        },
    };
    let t_a = tb_adjoin();
    let (adjoin, p7) = match pi_opt_uint(data, p6, t_a.as_slice()) {
        Ok(v) => v,
        Err(e) => {
            return Err(e);
        },
    };
    let t_mi = tb_mirror();
    let (mirror, p8) = match pi_opt_uint(data, p7, t_mi.as_slice()) {
        Ok(v) => v,
        Err(e) => {
            return Err(e);
        },
    };
    let t_w = tb_walk();
    let (walk, p9) = match pi_opt_uint(data, p8, t_w.as_slice()) {
        Ok(v) => v,
        Err(e) => {
            return Err(e);
        },
    };
    let t_f = tb_wflags();
    let (flags, p10) = match pi_flags3(data, p9, t_f.as_slice()) {
        Ok(v) => v,
        Err(e) => {
            return Err(e);
        },
    };
    let t_li = tb_light();
    let (light, p11) = match pi_uint(data, p10, t_li.as_slice(), u32::MAX as u64) {
        Ok(v) => v,
        Err(e) => {
            return Err(e);
        },
    };
    let p12 = match eol_exec(data, p11) {
        Some(p) => p,
        None => {
            return Err(PErr::Soft);
        },
    };
    Ok(
        (
            Wall {
                left_vertex: lv as usize,
                right_vertex: rv as usize,
                middle_texture: mid,
                top_texture: top,
                bottom_texture: bot,
                sign_texture: sign,
                adjoin_sector: adjoin,
                mirror_wall: mirror,
                walk_sector: walk,
                flags,
                light: light as u32,
            },
            p12,
        ),
    )
}

/// One vertex line: `X:` and `Z:` coordinates, then the end of the line.
fn parse_vertex_line(data: &[u8], pos: usize) -> (r: Result<(Vec2<Decimal>, usize), PErr>)
    requires
        pos <= data@.len(),
    ensures
        match r {
            Ok((v, p)) => {
                &&& vertex_line_at(data@, pos as int) == Parsed::<Vec2<Decimal>>::Done(v, p as int)
                &&& p <= data@.len()
            },
            Err(e) => match e {
                PErr::Soft => vertex_line_at(data@, pos as int) is Soft,
                PErr::Hard => vertex_line_at(data@, pos as int) is Hard,
            },
        },
{
    let t_xx = tb_x();
    let (x, p1) = match pi_decimal(data, pos, t_xx.as_slice()) {
        Ok(v) => v,
        Err(e) => {
            return Err(e);
        },
    };
    let t_zz = tb_z();
    let (y, p2) = match pi_decimal(data, p1, t_zz.as_slice()) {
        Ok(v) => v,
        Err(e) => {
            return Err(e);
        },
    };
    match eol_exec(data, p2) {
        Some(p3) => Ok((Vec2 { x, y }, p3)),
        None => Err(PErr::Soft),
    }
}

/// Exactly `n` vertex lines.
#[verifier::loop_isolation(false)]
#[verifier::rlimit(30)]
fn parse_vertices(data: &[u8], pos: usize, n: usize) -> (r: Result<
    (Vec<Vec2<Decimal>>, usize),
    PErr,
>)
    requires
        pos <= data@.len(),
    ensures
        match r {
            Ok((vs, p)) => {
                &&& vertices_at(data@, pos as int, n as int) == Parsed::<Seq<Vec2<Decimal>>>::Done(
                    vs@,
                    p as int,
                )
                &&& p <= data@.len()
            },
            Err(e) => match e {
                PErr::Soft => vertices_at(data@, pos as int, n as int) is Soft,
                PErr::Hard => vertices_at(data@, pos as int, n as int) is Hard,
            },
        },
{
    let mut vs: Vec<Vec2<Decimal>> = Vec::new();
    let mut cur = pos;
    let mut i: usize = 0;
    while i < n
        invariant
            i <= n,
            cur <= data@.len(),
            vs@.len() == i,
            match vertices_at(data@, cur as int, n - i) {
                Parsed::Done(rest, p) => vertices_at(data@, pos as int, n as int)
                    == Parsed::<Seq<Vec2<Decimal>>>::Done(vs@ + rest, p),
                Parsed::Soft => vertices_at(data@, pos as int, n as int) is Soft,
                Parsed::Hard => vertices_at(data@, pos as int, n as int) is Hard,
            },
        decreases n - i,
    {
        let ghost vs_before = vs@;
        match parse_vertex_line(data, cur) {
            Ok((v, p)) => {
                vs.push(v);
                proof {
                    match vertices_at(data@, p as int, n - i - 1) {
                        Parsed::Done(rest, p2) => {
                            assert(vs@ + rest =~= vs_before + (seq![v] + rest));
                        },
                        _ => {},
                    }
                }
                cur = p;
                i += 1;
            },
            Err(e) => {
                return Err(e);
            },
        }
    }
    proof {
        assert(vs@ + Seq::<Vec2<Decimal>>::empty() =~= vs@);
    }
    Ok((vs, cur))
}

/// One `WALL ...` line.
fn parse_wall_entry(data: &[u8], pos: usize) -> (r: Result<(Wall, usize), PErr>)
    requires
        pos <= data@.len(),
    ensures
        match r {
            Ok((w, p)) => {
                &&& wall_entry_at(data@, pos as int) == Parsed::<Wall>::Done(w, p as int)
                &&& p <= data@.len()
            },
            Err(e) => match e {
                PErr::Soft => wall_entry_at(data@, pos as int) is Soft,
                PErr::Hard => wall_entry_at(data@, pos as int) is Hard,
            },
        },
{
    let t_w = tb_wall();
    let q = match after_tag_exec(data, pos, t_w.as_slice()) {
        Some(q) => q,
        None => {
            return Err(PErr::Soft);
        },
    };
    match parse_wall(data, q) {
        Ok((w, p1)) => {
            let p = skip_spaces_exec(data, p1);
            Ok((w, p))
        },
        Err(_) => Err(PErr::Hard),
    }
}

/// Exactly `n` wall lines.
#[verifier::loop_isolation(false)]
#[verifier::rlimit(30)]
fn parse_walls(data: &[u8], pos: usize, n: usize) -> (r: Result<(Vec<Wall>, usize), PErr>)
    requires
        pos <= data@.len(),
    ensures
        match r {
            Ok((ws, p)) => {
                &&& walls_at(data@, pos as int, n as int) == Parsed::<Seq<Wall>>::Done(
                    ws@,
                    p as int,
                )
                &&& p <= data@.len()
            },
            Err(e) => match e {
                PErr::Soft => walls_at(data@, pos as int, n as int) is Soft,
                PErr::Hard => walls_at(data@, pos as int, n as int) is Hard,
            },
        },
{
    let mut ws: Vec<Wall> = Vec::new();
    let mut cur = pos;
    let mut i: usize = 0;
    while i < n
        invariant
            i <= n,
            cur <= data@.len(),
            ws@.len() == i,
            match walls_at(data@, cur as int, n - i) {
                Parsed::Done(rest, p) => walls_at(data@, pos as int, n as int)
                    == Parsed::<Seq<Wall>>::Done(ws@ + rest, p),
                Parsed::Soft => walls_at(data@, pos as int, n as int) is Soft,
                Parsed::Hard => walls_at(data@, pos as int, n as int) is Hard,
            },
        decreases n - i,
    {
        let ghost ws_before = ws@;
        match parse_wall_entry(data, cur) {
            Ok((w, p)) => {
                ws.push(w);
                proof {
                    match walls_at(data@, p as int, n - i - 1) {
                        Parsed::Done(rest, p2) => {
                            assert(ws@ + rest =~= ws_before + (seq![w] + rest));
                        },
                        _ => {},
                    }
                }
                cur = p;
                i += 1;
            },
            Err(e) => {
                return Err(e);
            },
        }
    }
    proof {
        assert(ws@ + Seq::<Wall>::empty() =~= ws@);
    }
    Ok((ws, cur))
}

/// One whole sector block.
#[verifier::rlimit(30)]
fn parse_sector(data: &[u8], pos: usize) -> (r: Result<(Sector, usize), PErr>)
    requires
        pos <= data@.len(),
    ensures
        match r {
            Ok((s, p)) => {
                &&& sector_at(data@, pos as int) == Parsed::<SectorModel>::Done(s@, p as int)
                &&& p <= data@.len()
            },
            Err(e) => match e {
                PErr::Soft => sector_at(data@, pos as int) is Soft,
                PErr::Hard => sector_at(data@, pos as int) is Hard,
            },
        },
{
    let t1 = tb_sector();
    let (id, p1) = match pe_uint(data, pos, t1.as_slice(), u32::MAX as u64) {
        Ok(v) => v,
        Err(e) => {
            return Err(e);
        },
    };
    let t2 = tb_name();
    let (name, p2) = match pe_opt_word(data, p1, t2.as_slice()) {
        Ok(v) => v,
        Err(e) => {
            return Err(e);
        },
    };
    let t3 = tb_ambient();
    let (ambient, p3) = match pe_uint(data, p2, t3.as_slice(), u32::MAX as u64) {
        Ok(v) => v,
        Err(e) => {
            return Err(e);
        },
    };
    let t4 = tb_floor_texture();
    let (ftex, p4) = match pe_texture(data, p3, t4.as_slice()) {
        Ok(v) => v,
        Err(e) => {
            return Err(e);
        },
    };
    let t5 = tb_floor_altitude();
    let (falt, p5) = match pe_decimal(data, p4, t5.as_slice()) {
        Ok(v) => v,
        Err(e) => {
            return Err(e);
        },
    };
    let t6 = tb_ceiling_texture();
    let (ctex, p6) = match pe_texture(data, p5, t6.as_slice()) {
        Ok(v) => v,
        Err(e) => {
            return Err(e);
        },
    };
    let t7 = tb_ceiling_altitude();
    let (calt, p7) = match pe_decimal(data, p6, t7.as_slice()) {
        Ok(v) => v,
        Err(e) => {
            return Err(e);
        },
    };
    let t8 = tb_second_altitude();
    let (salt, p8) = match pe_decimal(data, p7, t8.as_slice()) {
        Ok(v) => v,
        Err(e) => {
            return Err(e);
        },
    };
    let t9 = tb_flags();
    let (flags, p9) = match pe_flags3(data, p8, t9.as_slice()) {
        Ok(v) => v,
        Err(e) => {
            return Err(e);
        },
    };
    let t10 = tb_layer();
    let (layer, p10) = match pe_sint(data, p9, t10.as_slice()) {
        Ok(v) => v,
        Err(e) => {
            return Err(e);
        },
    };
    let t11 = tb_vertices();
    let (nv, p11) = match pe_uint(data, p10, t11.as_slice(), usize::MAX as u64) {
        Ok(v) => v,
        Err(e) => {
            return Err(e);
        },
    };
    let (verts, p12) = match parse_vertices(data, p11, nv as usize) {
        Ok(v) => v,
        Err(e) => {
            return Err(e);
        },
    };
    let t12 = tb_walls();
    let (nw, p13) = match pe_uint(data, p12, t12.as_slice(), usize::MAX as u64) {
        Ok(v) => v,
        Err(e) => {
            return Err(e);
        },
    };
    let (walls, p14) = match parse_walls(data, p13, nw as usize) {
        Ok(v) => v,
        Err(e) => {
            return Err(e);
        },
    };
    Ok(
        (
            Sector {
                id: id as u32,
                name,
                ambient: ambient as u32,
                floor_texture: ftex,
                floor_altitude: falt,
                ceiling_texture: ctex,
                ceiling_altitude: calt,
                second_altitude: salt,
                flags,
                layer,
                vertices: verts,
                walls,
            },
            p14,
        ),
    )
}

/// All `TEXTURE:` lines that follow.
#[verifier::loop_isolation(false)]
fn parse_textures(data: &[u8], pos: usize) -> (r: Result<(Vec<Vec<u8>>, usize), PErr>)
    requires
        pos <= data@.len(),
    ensures
        match r {
            Ok((ns, p)) => {
                &&& textures_at(data@, pos as int) == Parsed::<Seq<Seq<u8>>>::Done(
                    ns@.map_values(|n: Vec<u8>| n@),
                    p as int,
                )
                &&& p <= data@.len()
            },
            Err(e) => match e {
                PErr::Soft => textures_at(data@, pos as int) is Soft,
                PErr::Hard => textures_at(data@, pos as int) is Hard,
            },
        },
{
    let mut ns: Vec<Vec<u8>> = Vec::new();
    let mut cur = pos;
    proof {
        assert(ns@.map_values(|n: Vec<u8>| n@) =~~= Seq::<Seq<u8>>::empty());
    }
    loop
        invariant
            cur <= data@.len(),
            match textures_at(data@, cur as int) {
                Parsed::Done(rest, p) => textures_at(data@, pos as int)
                    == Parsed::<Seq<Seq<u8>>>::Done(ns@.map_values(|n: Vec<u8>| n@) + rest, p),
                Parsed::Soft => textures_at(data@, pos as int) is Soft,
                Parsed::Hard => textures_at(data@, pos as int) is Hard,
            },
        decreases data@.len() - cur,
    {
        let ghost ns_before = ns@;
        let t = tb_texture_item();
        match pe_word(data, cur, t.as_slice()) {
            Ok((w, p)) => {
                proof {
                    lemma_entry_word_bounds(data@, cur as int, t_texture_item());
                }
                let ghost wv = w@;
                ns.push(w);
                proof {
                    match textures_at(data@, p as int) {
                        Parsed::Done(rest, p2) => {
                            assert(ns@.map_values(|n: Vec<u8>| n@) + rest
                                =~~= ns_before.map_values(|n: Vec<u8>| n@) + (seq![wv] + rest));
                        },
                        _ => {},
                    }
                }
                cur = p;
            },
            Err(PErr::Soft) => {
                proof {
                    assert(ns@.map_values(|n: Vec<u8>| n@) + Seq::<Seq<u8>>::empty()
                        =~~= ns@.map_values(|n: Vec<u8>| n@));
                }
                return Ok((ns, cur));
            },
            Err(PErr::Hard) => {
                return Err(PErr::Hard);
            },
        }
    }
}

/// All sector blocks that follow.
#[verifier::loop_isolation(false)]
fn parse_sectors(data: &[u8], pos: usize) -> (r: Result<(Vec<Sector>, usize), PErr>)
    requires
        pos <= data@.len(),
    ensures
        match r {
            Ok((ss, p)) => {
                &&& sectors_at(data@, pos as int) == Parsed::<Seq<SectorModel>>::Done(
                    ss@.map_values(|s: Sector| s@),
                    p as int,
                )
                &&& p <= data@.len()
            },
            Err(e) => match e {
                PErr::Soft => sectors_at(data@, pos as int) is Soft,
                PErr::Hard => sectors_at(data@, pos as int) is Hard,
            },
        },
{
    let mut ss: Vec<Sector> = Vec::new();
    let mut cur = pos;
    proof {
        assert(ss@.map_values(|s: Sector| s@) =~~= Seq::<SectorModel>::empty());
    }
    loop
        invariant
            cur <= data@.len(),
            match sectors_at(data@, cur as int) {
                Parsed::Done(rest, p) => sectors_at(data@, pos as int)
                    == Parsed::<Seq<SectorModel>>::Done(
                    ss@.map_values(|s: Sector| s@) + rest,
                    p,
                ),
                Parsed::Soft => sectors_at(data@, pos as int) is Soft,
                Parsed::Hard => sectors_at(data@, pos as int) is Hard,
            },
        decreases data@.len() - cur,
    {
        let ghost ss_before = ss@;
        match parse_sector(data, cur) {
            Ok((s, p)) => {
                proof {
                    lemma_sector_at_bounds(data@, cur as int);
                }
                let ghost sv = s@;
                ss.push(s);
                proof {
                    match sectors_at(data@, p as int) {
                        Parsed::Done(rest, p2) => {
                            assert(ss@.map_values(|s: Sector| s@) + rest =~~= ss_before.map_values(
                                |s: Sector| s@,
                            ) + (seq![sv] + rest));
                        },
                        _ => {},
                    }
                }
                cur = p;
            },
            Err(PErr::Soft) => {
                proof {
                    assert(ss@.map_values(|s: Sector| s@) + Seq::<SectorModel>::empty()
                        =~~= ss@.map_values(|s: Sector| s@));
                }
                return Ok((ss, cur));
            },
            Err(PErr::Hard) => {
                return Err(PErr::Hard);
            },
        }
    }
}

impl Lev {
    /// Parses a whole level text. A malformed header or a malformed value
    /// after a recognized tag fails the whole file; text after the last
    /// well-formed sector block is ignored, as the grammar ignores it.
    pub fn parse(data: &[u8]) -> (r: ReadResult<Lev>)
        ensures
            match r {
                Ok(l) => (match lev_at(data@) {
                    Parsed::Done(m, _) => m == l@,
                    _ => false,
                }),
                Err(e) => {
                    &&& e matches ReadError::Decoding(_)
                    &&& !(lev_at(data@) is Done)
                },
            },
    {
        let t1 = tb_lev();
        let p1 = match pe_rawline(data, 0, t1.as_slice()) {
            Ok(p) => p,
            Err(_) => {
                return Err(ReadError::Decoding("level parse error"));
            },
        };
        let t2 = tb_levelname();
        let p2 = match pe_rawline(data, p1, t2.as_slice()) {
            Ok(p) => p,
            Err(_) => {
                return Err(ReadError::Decoding("level parse error"));
            },
        };
        let t3 = tb_palette();
        let (palette_name, p3) = match pe_word(data, p2, t3.as_slice()) {
            Ok(v) => v,
            Err(_) => {
                return Err(ReadError::Decoding("level parse error"));
            },
        };
        let t4 = tb_music();
        let p4 = match pe_rawline(data, p3, t4.as_slice()) {
            Ok(p) => p,
            Err(_) => {
                return Err(ReadError::Decoding("level parse error"));
            },
        };
        let t5 = tb_parallax();
        let (parallax, p5) = match pe_decimal_pair(data, p4, t5.as_slice()) {
            Ok(v) => v,
            Err(_) => {
                return Err(ReadError::Decoding("level parse error"));
            },
        };
        let t6 = tb_textures();
        let p6 = match pe_rawline(data, p5, t6.as_slice()) {
            Ok(p) => p,
            Err(_) => {
                return Err(ReadError::Decoding("level parse error"));
            },
        };
        let (texture_names, p7) = match parse_textures(data, p6) {
            Ok(v) => v,
            Err(_) => {
                return Err(ReadError::Decoding("level parse error"));
            },
        };
        let t7 = tb_numsectors();
        let p8 = match pe_rawline(data, p7, t7.as_slice()) {
            Ok(p) => p,
            Err(_) => {
                return Err(ReadError::Decoding("level parse error"));
            },
        };
        let (sectors, _p9) = match parse_sectors(data, p8) {
            Ok(v) => v,
            Err(_) => {
                return Err(ReadError::Decoding("level parse error"));
            },
        };
        Ok(Lev { palette_name, parallax, texture_names, sectors })
    }
}

} // verus!
