//! The positional model: a cursor position made of a 1-based line and column
//! and the byte span of the last consumed text, together with the
//! specification of how consuming text moves a position.

use crate::text::{byte_len, lemma_byte_len_bounds, lemma_byte_len_concat, utf8_len};
use vstd::prelude::*;

verus! {

/// A snapshot of the cursor: 1-based `line` and `column`, and `offset`, the
/// byte range of the last consumed span of the input.
#[derive(Clone, Copy, Debug, PartialEq)]
pub struct Location {
    pub line: usize,
    pub column: usize,
    pub offset: (usize, usize),
}

/// The mathematical image of a `Location`, free of machine-width bounds.
pub ghost struct LocModel {
    pub line: int,
    pub column: int,
    pub start: int,
    pub end: int,
}

impl View for Location {
    type V = LocModel;

    open spec fn view(&self) -> LocModel {
        LocModel {
            line: self.line as int,
            column: self.column as int,
            start: self.offset.0 as int,
            end: self.offset.1 as int,
        }
    }
}

/// The position at which every parse begins: line 1, column 1, an empty span
/// at byte 0.
pub open spec fn start_loc() -> LocModel {
    LocModel { line: 1, column: 1, start: 0, end: 0 }
}

impl Default for Location {
    /// The initial cursor position.
    fn default() -> (r: Self)
        ensures
            r@ == start_loc(),
    {
        Location { line: 1, column: 1, offset: (0, 0) }
    }
}

/// One character's effect on a position: a newline starts the next line at
/// column 1, any other character moves one column; the end of the consumed
/// span grows by the character's encoded width in bytes.
pub open spec fn loc_step(l: LocModel, c: char) -> LocModel {
    LocModel {
        line: if c == '\n' {
            l.line + 1
        } else {
            l.line
        },
        column: if c == '\n' {
            1
        } else {
            l.column + 1
        },
        start: l.start,
        end: l.end + utf8_len(c),
    }
}

/// The position reached from `l` after consuming `s`, character by character.
pub open spec fn loc_advanced(l: LocModel, s: Seq<char>) -> LocModel
    decreases s.len(),
{
    if s.len() == 0 {
        l
    } else {
        loc_advanced(loc_step(l, s[0]), s.drop_first())
    }
}

/// Opening a new span: the next consumed span begins where the last ended.
pub open spec fn span_begin(l: LocModel) -> LocModel {
    LocModel { start: l.end, ..l }
}

/// Consuming one more character at the end of a text steps the position once
/// more.
pub proof fn lemma_loc_advanced_push(l: LocModel, s: Seq<char>, c: char)
    ensures
        loc_advanced(l, s.push(c)) == loc_step(loc_advanced(l, s), c),
    decreases s.len(),
{
    if s.len() == 0 {
        assert(s.push(c).drop_first() =~= Seq::<char>::empty());
        assert(s.push(c)[0] == c);
        assert(loc_advanced(l, s.push(c)) == loc_advanced(loc_step(l, c), s.push(c).drop_first()));
        assert(loc_advanced(loc_step(l, c), Seq::<char>::empty()) == loc_step(l, c));
        assert(loc_advanced(l, s) == l);
    } else {
        assert(s.push(c).drop_first() =~= s.drop_first().push(c));
        assert(s.push(c)[0] == s[0]);
        lemma_loc_advanced_push(loc_step(l, s[0]), s.drop_first(), c);
        assert(loc_advanced(l, s.push(c)) == loc_advanced(
            loc_step(l, s[0]),
            s.drop_first().push(c),
        ));
        assert(loc_advanced(l, s) == loc_advanced(loc_step(l, s[0]), s.drop_first()));
    }
}

/// How far a position can move: the line grows by at most one per character,
/// the column stays within one per character of where it began, and the end
/// offset grows by exactly the consumed bytes.
pub proof fn lemma_loc_advanced_bounds(l: LocModel, s: Seq<char>)
    requires
        l.column >= 0,
    ensures
        l.line <= loc_advanced(l, s).line <= l.line + s.len(),
        0 <= loc_advanced(l, s).column <= l.column + s.len(),
        loc_advanced(l, s).start == l.start,
        loc_advanced(l, s).end == l.end + byte_len(s),
    decreases s.len(),
{
    if s.len() > 0 {
        lemma_loc_advanced_bounds(loc_step(l, s[0]), s.drop_first());
    }
}

/// The bytes consumed over a prefix never exceed the bytes of the whole.
pub proof fn lemma_byte_len_take_le(s: Seq<char>, i: int)
    requires
        0 <= i <= s.len(),
    ensures
        0 <= byte_len(s.take(i)) <= byte_len(s),
{
    assert(s =~= s.take(i) + s.skip(i));
    lemma_byte_len_concat(s.take(i), s.skip(i));
    lemma_byte_len_bounds(s.take(i));
    lemma_byte_len_bounds(s.skip(i));
}

} // verus!
