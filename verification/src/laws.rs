//! The laws the primitive matchers obey, stated over the same specifications
//! their contracts use and proved for every input.

use crate::context::CtxModel;
use crate::error::errors_agree;
use crate::location::{loc_advanced, loc_step, span_begin, start_loc, LocModel};
use crate::node::nodes_agree;
use crate::parser::{init_ctx, AnyTokenMatcher, LiteralMatcher, ParseFN, ParseResult, ParserType,
    TokenMatcher};
use crate::text::{begins_with, byte_len, char_index_at, lemma_char_index_at_prefix, slice_chars,
    utf8_len};
use vstd::prelude::*;

verus! {

/// Two parse outcomes carry the same content: both succeed with agreeing
/// nodes, or both fail with agreeing errors.
pub open spec fn results_agree<T: ParserType>(a: ParseResult<T>, b: ParseResult<T>) -> bool {
    match (a, b) {
        (Ok(na), Ok(nb)) => nodes_agree(na, nb),
        (Err(ea), Err(eb)) => errors_agree(ea, eb),
        _ => false,
    }
}

/// Law: `any_token` is deterministic — any two outcomes its contract admits
/// for one and the same context carry the same content, so parsing a fixed
/// input always returns the identical result, with no hidden state across
/// calls.
pub proof fn lemma_any_token_deterministic(
    f: AnyTokenMatcher,
    m: CtxModel,
    r1: ParseResult<char>,
    r2: ParseResult<char>,
)
    requires
        f.call_ens(m, r1),
        f.call_ens(m, r2),
    ensures
        results_agree(r1, r2),
{
    if m.input.len() > 0 {
        assert(r1->Ok_0.children@ =~= r2->Ok_0.children@);
    }
}

/// Law: `token` is deterministic — any two outcomes its contract admits for
/// one and the same context carry the same content, so parsing a fixed input
/// always returns the identical result, with no hidden state across calls.
pub proof fn lemma_token_deterministic(
    f: TokenMatcher,
    m: CtxModel,
    r1: ParseResult<char>,
    r2: ParseResult<char>,
)
    requires
        f.call_ens(m, r1),
        f.call_ens(m, r2),
    ensures
        results_agree(r1, r2),
{
    if m.input.len() > 0 && m.input[0] == f.expected {
        assert(r1->Ok_0.children@ =~= r2->Ok_0.children@);
    }
}

/// Law: `literal` is deterministic — any two outcomes its contract admits
/// for one and the same context carry the same content, so parsing a fixed
/// input always returns the identical result, with no hidden state across
/// calls.
pub proof fn lemma_literal_deterministic(
    f: LiteralMatcher,
    m: CtxModel,
    r1: ParseResult<String>,
    r2: ParseResult<String>,
)
    requires
        f.call_ens(m, r1),
        f.call_ens(m, r2),
    ensures
        results_agree(r1, r2),
{
    match crate::parser::remaining_view(m) {
        Some(rem) => {
            if crate::text::begins_with(rem, f.pattern@) {
                assert(r1->Ok_0.children@ =~= r2->Ok_0.children@);
            }
        },
        None => {
        },
    }
}

/// Where a single-character match at the start of the input leaves the
/// cursor: a newline starts line 2 at column 1, any other character stays on
/// line 1 at column 2, and the consumed span covers exactly the character's
/// encoded width in bytes — not one byte per character.
pub open spec fn one_char_start_loc(c: char) -> LocModel {
    LocModel {
        line: if c == '\n' {
            2
        } else {
            1
        },
        column: if c == '\n' {
            1
        } else {
            2
        },
        start: 0,
        end: utf8_len(c),
    }
}

/// On a fresh context, consuming the first character of the input moves the
/// cursor to `one_char_start_loc` of that character.
proof fn lemma_first_char_advance(input: Seq<char>)
    requires
        input.len() > 0,
    ensures
        slice_chars(input, 0, utf8_len(input[0])) == Some(input.take(1)),
        loc_advanced(span_begin(start_loc()), input.take(1)) == one_char_start_loc(input[0]),
{
    let c = input[0];
    assert(char_index_at(input, 0) == Some(0int));
    assert(input.skip(0) =~= input);
    assert(char_index_at(input.drop_first(), 0) == Some(0int));
    assert(char_index_at(input, utf8_len(c)) == Some(1int));
    assert(input.skip(0).take(1) =~= input.take(1));
    let consumed = input.take(1);
    assert(consumed[0] == c);
    assert(consumed.drop_first() =~= Seq::<char>::empty());
    let l0 = span_begin(start_loc());
    assert(loc_advanced(l0, consumed) == loc_advanced(loc_step(l0, c), consumed.drop_first()));
}

/// Law: when the input is not empty, `any_token` succeeds, yields its first
/// character, and leaves the cursor one character in — on line 2 column 1
/// after a newline, on line 1 column 2 otherwise, with the span's end moved
/// by the character's encoded byte width.
pub proof fn lemma_any_token_start_position(
    f: AnyTokenMatcher,
    input: Seq<char>,
    r: ParseResult<char>,
)
    requires
        input.len() > 0,
        f.call_ens(init_ctx(input), r),
    ensures
        r matches Ok(node) && node.value == input[0] && node.location@ == one_char_start_loc(
            input[0],
        ),
{
    lemma_first_char_advance(input);
}

/// Law: when the input starts with the expected character, `token` succeeds,
/// yields that character, and leaves the cursor one character in — on line 2
/// column 1 after a newline, on line 1 column 2 otherwise, with the span's
/// end moved by the character's encoded byte width.
pub proof fn lemma_token_start_position(f: TokenMatcher, input: Seq<char>, r: ParseResult<char>)
    requires
        input.len() > 0,
        input[0] == f.expected,
        f.call_ens(init_ctx(input), r),
    ensures
        r matches Ok(node) && node.value == f.expected && node.location@ == one_char_start_loc(
            f.expected,
        ),
{
    lemma_first_char_advance(input);
}

/// Law: when the input starts with the pattern, `literal` succeeds, yields
/// the pattern, and leaves the cursor exactly the pattern's own advance from
/// the start — in particular its span is the pattern's bytes, `(0,
/// byte_len(pattern))`.
pub proof fn lemma_literal_start_position(
    f: LiteralMatcher,
    input: Seq<char>,
    r: ParseResult<String>,
)
    requires
        input.len() > 0,
        begins_with(input, f.pattern@),
        f.call_ens(init_ctx(input), r),
    ensures
        r matches Ok(node) && node.value@ == f.pattern@ && node.location@ == loc_advanced(
            span_begin(start_loc()),
            f.pattern@,
        ),
        loc_advanced(span_begin(start_loc()), f.pattern@).start == 0,
        loc_advanced(span_begin(start_loc()), f.pattern@).end == byte_len(f.pattern@),
{
    let p = f.pattern@;
    assert(char_index_at(input, 0) == Some(0int));
    assert(input.skip(0) =~= input);
    assert(crate::parser::remaining_view(init_ctx(input)) == Some(input));
    lemma_char_index_at_prefix(input, p);
    assert(input.skip(0).take(p.len() as int) =~= input.take(p.len() as int));
    assert(input.take(p.len() as int) == p);
    crate::location::lemma_loc_advanced_bounds(span_begin(start_loc()), p);
    if p.len() > 0 {
        assert(slice_chars(input, 0, byte_len(p)) == Some(p)) by {
            crate::text::lemma_byte_len_bounds(p);
        }
    }
}

} // verus!
