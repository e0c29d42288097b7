//! Mutable parse-time state: the full input together with the current cursor
//! position, offering cursor advance and lookahead.

use crate::location::{
    lemma_byte_len_take_le, lemma_loc_advanced_bounds, lemma_loc_advanced_push, loc_advanced,
    span_begin, start_loc, LocModel, Location,
};
use crate::text::{
    byte_len, byte_length, char_index_at, char_utf8_len, lemma_byte_len_concat,
    lemma_char_index_at_some, slice_chars, utf8_len,
};
use vstd::prelude::*;
use vstd::string::StrSliceExecFns;

verus! {

/// The state of one in-flight parse: a borrowed view of the original text
/// (never copied, never mutated) and the current cursor position. Exactly one
/// context exists per parse invocation.
pub struct Context<'a> {
    pub(crate) input: &'a str,
    pub(crate) location: Location,
}

/// The mathematical image of a `Context`: the input's characters and the
/// cursor model.
pub ghost struct CtxModel {
    pub input: Seq<char>,
    pub loc: LocModel,
}

impl<'a> View for Context<'a> {
    type V = CtxModel;

    closed spec fn view(&self) -> CtxModel {
        CtxModel { input: self.input@, loc: self.location@ }
    }
}

/// Spells out, for the rest of the crate, how a context's model is made from
/// its parts.
pub(crate) proof fn ctx_view_parts(c: &Context<'_>)
    ensures
        c@.input == c.input@,
        c@.loc == c.location@,
{
}

/// The position after sliding the cursor `length` bytes forward from the end
/// of the last consumed span: unchanged when `length` is zero, and also
/// unchanged — silently — when either end of the byte range
/// `[loc.end, loc.end + length)` falls outside the input or inside the
/// encoding of a character.
pub open spec fn loc_after_advance_by(m: CtxModel, length: int) -> LocModel {
    if length == 0 {
        m.loc
    } else {
        match slice_chars(m.input, m.loc.end, length) {
            Some(consumed) => loc_advanced(span_begin(m.loc), consumed),
            None => m.loc,
        }
    }
}

impl<'a> Context<'a> {
    /// A fresh context over `input`, positioned at the start.
    pub fn new(input: &'a str) -> (r: Self)
        ensures
            r@.input == input@,
            r@.loc == start_loc(),
    {
        Self { input, location: Location::default() }
    }

    /// Consumes `characters`: the new span begins where the last one ended,
    /// then each character moves the cursor one step — a newline to the start
    /// of the next line, anything else one column — while the span's end
    /// grows by the character's width in bytes. The bounds required are those
    /// the machine word forces.
    pub fn advance(&mut self, characters: &str)
        requires
            old(self)@.loc.end + byte_len(characters@) <= usize::MAX,
            old(self)@.loc.line + characters@.len() <= usize::MAX,
            old(self)@.loc.column + characters@.len() <= usize::MAX,
        ensures
            final(self)@.input == old(self)@.input,
            final(self)@.loc == loc_advanced(span_begin(old(self)@.loc), characters@),
    {
        self.location.offset.0 = self.location.offset.1;
        let ghost l0 = span_begin(old(self)@.loc);
        let n = characters.unicode_len();
        let mut i: usize = 0;
        while i < n
            invariant
                i <= n,
                n == characters@.len(),
                self.input == old(self).input,
                l0 == span_begin(old(self)@.loc),
                l0.column >= 0,
                l0.end + byte_len(characters@) <= usize::MAX,
                l0.line + characters@.len() <= usize::MAX,
                l0.column + characters@.len() <= usize::MAX,
                self.location@ == loc_advanced(l0, characters@.take(i as int)),
            decreases n - i,
        {
            let c = characters.get_char(i);
            proof {
                lemma_loc_advanced_bounds(l0, characters@.take(i as int));
                lemma_loc_advanced_push(l0, characters@.take(i as int), c);
                assert(characters@.take(i as int).push(c) =~= characters@.take(i + 1));
                lemma_byte_len_take_le(characters@, i + 1);
                lemma_loc_advanced_bounds(l0, characters@.take(i + 1));
            }
            if c == '\n' {
                self.location.line = self.location.line + 1;
                self.location.column = 1;
            } else {
                self.location.column = self.location.column + 1;
            }
            self.location.offset.1 = self.location.offset.1 + (char_utf8_len(c) as usize);
            i = i + 1;
        }
        proof {
            assert(characters@.take(n as int) =~= characters@);
        }
    }

    /// Takes the byte range `[loc.end, loc.end + length)` of the input and
    /// consumes it as `advance` would. When `length` is zero, or when either
    /// end of that range falls outside the input or inside the encoding of a
    /// character, the cursor is left exactly as it was — no panic, no partial
    /// advance.
    pub fn advance_by(&mut self, length: usize)
        requires
            (match slice_chars(old(self)@.input, old(self)@.loc.end, length as int) {
                Some(consumed) => old(self)@.loc.line + consumed.len() <= usize::MAX && old(
                    self,
                )@.loc.column + consumed.len() <= usize::MAX,
                None => true,
            }),
        ensures
            final(self)@.input == old(self)@.input,
            final(self)@.loc == loc_after_advance_by(old(self)@, length as int),
    {
        if length == 0 {
            return;
        }
        let inp = self.input;
        let n = inp.unicode_len();
        let total = byte_length(inp);
        proof {
            assert(inp@.skip(0) =~= inp@);
        }
        let k = match scan_from_start(inp, n, self.location.offset.1) {
            Some(k) => k,
            None => {
                return;
            },
        };
        let m = match crate::text::scan_span(inp, n, k, length) {
            Some(m) => m,
            None => {
                return;
            },
        };
        let chunk = inp.substring_char(k, m);
        proof {
            let s = inp@;
            let pre = old(self)@;
            let consumed = s.skip(k as int).take(m - k);
            assert(chunk@ =~= consumed);
            lemma_char_index_at_some(s, pre.loc.end, k as int);
            lemma_char_index_at_some(s.skip(k as int), length as int, m - k);
            // the consumed span occupies exactly `length` bytes
            assert(byte_len(consumed) == length);
            // and it ends inside the input, whose bytes fit in a machine word
            assert(s.take(m as int) =~= s.take(k as int) + consumed);
            lemma_byte_len_concat(s.take(k as int), consumed);
            lemma_byte_len_take_le(s, m as int);
            assert(pre.loc.end + length <= total);
        }
        self.advance(chunk);
    }

    /// Peeks at the first character of the original input without consuming
    /// it. Note that this reads from the head of the whole input, not from
    /// the position the cursor has reached: the primitive matchers call it
    /// only on a fresh context and advance in lockstep afterwards.
    pub fn get_next_character(&self) -> (r: Option<char>)
        ensures
            r == (if self@.input.len() == 0 {
                None::<char>
            } else {
                Some(self@.input[0])
            }),
    {
        if self.input.is_empty() {
            None
        } else {
            Some(self.input.get_char(0))
        }
    }

    /// The input from the cursor's byte offset to the end. Absent when the
    /// original input was empty — not when the remaining slice is empty, so
    /// callers probing for exhaustion must test the returned text's length —
    /// and also absent when the offset falls outside the input or inside the
    /// encoding of a character.
    pub fn get_remaining_input(&self) -> (r: Option<&'a str>)
        ensures
            (match r {
                Some(rest) => self@.input.len() > 0 && crate::text::remaining_of(
                    self@.input,
                    self@.loc.end,
                ) == Some(rest@),
                None => self@.input.len() == 0 || crate::text::remaining_of(
                    self@.input,
                    self@.loc.end,
                ) is None,
            }),
    {
        if self.input.is_empty() {
            return None;
        }
        let inp = self.input;
        let n = inp.unicode_len();
        proof {
            assert(inp@.skip(0) =~= inp@);
        }
        match scan_from_start(inp, n, self.location.offset.1) {
            Some(k) => {
                let rest = inp.substring_char(k, n);
                proof {
                    assert(rest@ =~= inp@.skip(k as int));
                }
                Some(rest)
            },
            None => None,
        }
    }
}

/// Scans `s` from its start for the character index sitting at the byte
/// offset `bytes`.
fn scan_from_start(s: &str, n: usize, bytes: usize) -> (r: Option<usize>)
    requires
        n == s@.len(),
    ensures
        match r {
            Some(k) => k <= n && char_index_at(s@, bytes as int) == Some(k as int),
            None => char_index_at(s@, bytes as int) is None,
        },
{
    proof {
        assert(s@.skip(0) =~= s@);
    }
    crate::text::scan_span(s, n, 0, bytes)
}

} // verus!
