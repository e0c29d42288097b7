//! A foundational parser-combinator engine: composable parsing primitives
//! that consume text, track precise source positions (line, column, and byte
//! offsets), and produce labeled parse-tree nodes or structured errors.

mod context;
mod error;
mod laws;
mod location;
mod node;
mod parser;
mod text;

pub use crate::context::{loc_after_advance_by, Context, CtxModel};
pub use crate::error::{errors_agree, expecteds_agree, Error, Expected};
pub use crate::laws::{lemma_any_token_deterministic, lemma_any_token_start_position,
    lemma_literal_deterministic, lemma_literal_start_position, lemma_token_deterministic,
    lemma_token_start_position, one_char_start_loc, results_agree};
pub use crate::location::{loc_advanced, loc_step, span_begin, start_loc, LocModel, Location};
pub use crate::node::{nodes_agree, Node};
pub use crate::parser::{any_token, init_ctx, lemma_any_token_req, lemma_literal_req,
    lemma_token_req, literal, remaining_view, token, AnyTokenMatcher, LiteralMatcher, ParseFN,
    ParseResult, Parser, ParserType, TokenMatcher};
pub use crate::text::{begins_with, byte_len, char_index_at, first_ws_token, is_space, remaining_of,
    slice_chars, utf8_len, word_len, ws_prefix_len};
